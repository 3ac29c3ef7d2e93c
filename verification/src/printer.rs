//! The printer: writes a syntax tree as tokens and as text again, every
//! operation in parentheses, so that the text reads as the tree.

use vstd::prelude::*;
use crate::ast::{
    expressions_view, identifiers_view, lemma_block_view, lemma_expression_view,
    lemma_expressions_view, lemma_statement_view, lemma_statements_view, statements_view,
    MonkeyExpression, Programm, SpecBlock, SpecExpression, SpecIdentifier, SpecStatement,
    Statement,
};
use crate::evaluator::{decode_infix_operator, decode_prefix_operator};
use crate::grammar::identifier_of;
use crate::lexer::{in_class, is_digit, is_letter, CharClass};
use crate::object::{append_digits, digits};
use crate::semantics::{infix_operator, prefix_operator, InfixOperator, PrefixOperator};
use crate::token::{eof_token, Identifier, SpecToken, TokenType};
use crate::writer::{identifier_text, text_of};

verus! {


pub open spec fn left_parenthesis() -> SpecToken {
    SpecToken { kind: TokenType::LPAREN, literal: "("@ }
}

pub open spec fn right_parenthesis() -> SpecToken {
    SpecToken { kind: TokenType::RPAREN, literal: ")"@ }
}

pub open spec fn left_brace() -> SpecToken {
    SpecToken { kind: TokenType::LBRACE, literal: "{"@ }
}

pub open spec fn right_brace() -> SpecToken {
    SpecToken { kind: TokenType::RBRACE, literal: "}"@ }
}

pub open spec fn comma() -> SpecToken {
    SpecToken { kind: TokenType::COMMA, literal: ","@ }
}

pub open spec fn semicolon() -> SpecToken {
    SpecToken { kind: TokenType::SEMICOLON, literal: ";"@ }
}

pub open spec fn assign() -> SpecToken {
    SpecToken { kind: TokenType::ASSIGN, literal: "="@ }
}

pub open spec fn keyword_let() -> SpecToken {
    SpecToken { kind: TokenType::LET, literal: "let"@ }
}

pub open spec fn keyword_return() -> SpecToken {
    SpecToken { kind: TokenType::RETURN, literal: "return"@ }
}

pub open spec fn keyword_if() -> SpecToken {
    SpecToken { kind: TokenType::IF, literal: "if"@ }
}

pub open spec fn keyword_else() -> SpecToken {
    SpecToken { kind: TokenType::ELSE, literal: "else"@ }
}

pub open spec fn keyword_fn() -> SpecToken {
    SpecToken { kind: TokenType::FUNCTION, literal: "fn"@ }
}

/// The token that writes a truth value.
pub open spec fn boolean_token(value: bool) -> SpecToken {
    if value {
        SpecToken { kind: TokenType::TRUE, literal: "true"@ }
    } else {
        SpecToken { kind: TokenType::FALSE, literal: "false"@ }
    }
}

/// The token that writes an integer that is not negative.
pub open spec fn integer_token(value: i64) -> SpecToken {
    SpecToken { kind: TokenType::INT, literal: digits(value as nat) }
}

/// The token that writes a name.
pub open spec fn name_token(name: Seq<char>) -> SpecToken {
    SpecToken { kind: TokenType::IDENT, literal: name }
}

/// The kind of the token that writes a prefix operator.
pub open spec fn prefix_kind(op: PrefixOperator) -> TokenType {
    match op {
        PrefixOperator::Bang => TokenType::BANG,
        PrefixOperator::Minus => TokenType::MINUS,
    }
}

/// The kind of the token that writes an infix operator.
pub open spec fn infix_kind(op: InfixOperator) -> TokenType {
    match op {
        InfixOperator::Plus => TokenType::PLUS,
        InfixOperator::Minus => TokenType::MINUS,
        InfixOperator::Asterisk => TokenType::ASTERISK,
        InfixOperator::Slash => TokenType::SLASH,
        InfixOperator::Power => TokenType::POWER,
        InfixOperator::Lt => TokenType::LT,
        InfixOperator::Gt => TokenType::GT,
        InfixOperator::LtEq => TokenType::LTEQ,
        InfixOperator::GtEq => TokenType::GTEQ,
        InfixOperator::Eq => TokenType::EQ,
        InfixOperator::NotEq => TokenType::NOTEQ,
    }
}

/// The token that writes the prefix operator spelled `operator`.
pub open spec fn prefix_token(operator: Seq<char>) -> SpecToken {
    SpecToken { kind: prefix_kind(prefix_operator(operator)->Some_0), literal: operator }
}

/// The token that writes the infix operator spelled `operator`.
pub open spec fn infix_token(operator: Seq<char>) -> SpecToken {
    SpecToken { kind: infix_kind(infix_operator(operator)->Some_0), literal: operator }
}

/// An expression that the printer can write: its names are identifiers,
/// its operators are operators of the language, its integer literals are
/// not negative, a call either has no argument list or one that is not
/// empty, and its blocks hold no bare blocks.
pub open spec fn printable(e: SpecExpression) -> bool
    decreases e,
{
    match e {
        SpecExpression::Ident(name) => identifier_text(name.value),
        SpecExpression::Integer { value, .. } => value >= 0,
        SpecExpression::Boolean { .. } => true,
        SpecExpression::Prefix { operator, right, .. } => prefix_operator(operator) is Some
            && printable(*right),
        SpecExpression::Infix { operator, left, right, .. } => infix_operator(operator) is Some
            && printable(*left) && printable(*right),
        SpecExpression::If { condition, consequence, alternative, .. } => printable(*condition)
            && printable_statements(consequence.statements) && match alternative {
            Some(b) => printable_statements(b.statements),
            None => true,
        },
        SpecExpression::Function { parameters, body, .. } => printable_names(parameters)
            && printable_statements(body.statements),
        SpecExpression::Call { function, arguments, .. } => printable(*function)
            && match arguments {
            Some(list) => list.len() > 0 && printable_expressions(list),
            None => true,
        },
    }
}

pub open spec fn printable_expressions(list: Seq<SpecExpression>) -> bool
    decreases list,
{
    forall|i: int| 0 <= i < list.len() ==> printable(#[trigger] list[i])
}

pub open spec fn printable_statements(statements: Seq<SpecStatement>) -> bool
    decreases statements,
{
    forall|i: int| 0 <= i < statements.len() ==> printable_statement(#[trigger] statements[i])
}

pub open spec fn printable_statement(s: SpecStatement) -> bool
    decreases s,
{
    match s {
        SpecStatement::Let { name, value, .. } => identifier_text(name.value) && printable(value),
        SpecStatement::Return { value, .. } => printable(value),
        SpecStatement::Expression { expression, .. } => printable(expression),
        SpecStatement::Block(_) => false,
    }
}

/// Names that the printer can write: each is an identifier.
pub open spec fn printable_names(names: Seq<SpecIdentifier>) -> bool {
    forall|i: int| 0 <= i < names.len() ==> identifier_text((#[trigger] names[i]).value)
}

/// The tokens that write an expression. A name, a literal, a conditional
/// and a function literal are written as they are; every other expression
/// is written between parentheses.
pub open spec fn print_expression(e: SpecExpression) -> Seq<SpecToken>
    decreases e,
{
    match e {
        SpecExpression::Ident(name) => seq![name_token(name.value)],
        SpecExpression::Integer { value, .. } => seq![integer_token(value)],
        SpecExpression::Boolean { value, .. } => seq![boolean_token(value)],
        SpecExpression::Prefix { operator, right, .. } => seq![
            left_parenthesis(),
            prefix_token(operator),
        ] + print_expression(*right) + seq![right_parenthesis()],
        SpecExpression::Infix { operator, left, right, .. } => seq![left_parenthesis()]
            + print_expression(*left) + seq![infix_token(operator)] + print_expression(*right)
            + seq![right_parenthesis()],
        SpecExpression::If { condition, consequence, alternative, .. } => seq![
            keyword_if(),
            left_parenthesis(),
        ] + print_expression(*condition) + seq![right_parenthesis()] + print_block(
            consequence.statements,
        ) + match alternative {
            Some(b) => seq![keyword_else()] + print_block(b.statements),
            None => Seq::empty(),
        },
        SpecExpression::Function { parameters, body, .. } => seq![
            keyword_fn(),
            left_parenthesis(),
        ] + print_parameters(parameters, parameters.len()) + seq![right_parenthesis()]
            + print_block(body.statements),
        SpecExpression::Call { function, arguments, .. } => seq![left_parenthesis()]
            + print_expression(*function) + seq![left_parenthesis()] + match arguments {
            Some(list) => print_expressions(list, list.len()),
            None => Seq::empty(),
        } + seq![right_parenthesis(), right_parenthesis()],
    }
}

/// The tokens that write the first `n` names of a parameter list, with
/// commas between them.
pub open spec fn print_parameters(parameters: Seq<SpecIdentifier>, n: nat) -> Seq<SpecToken>
    decreases n,
{
    if n == 0 || n > parameters.len() {
        Seq::empty()
    } else if n == 1 {
        seq![name_token(parameters[0].value)]
    } else {
        print_parameters(parameters, (n - 1) as nat) + seq![
            comma(),
            name_token(parameters[n - 1].value),
        ]
    }
}

/// The tokens that write the first `n` expressions of a list, with commas
/// between them.
pub open spec fn print_expressions(list: Seq<SpecExpression>, n: nat) -> Seq<SpecToken>
    decreases list, n,
{
    if n == 0 || n > list.len() {
        Seq::empty()
    } else if n == 1 {
        print_expression(list[0])
    } else {
        print_expressions(list, (n - 1) as nat) + seq![comma()] + print_expression(list[n - 1])
    }
}

/// The tokens that write a block: its statements between braces.
pub open spec fn print_block(statements: Seq<SpecStatement>) -> Seq<SpecToken>
    decreases statements, statements.len() + 1,
{
    seq![left_brace()] + print_statements(statements, statements.len()) + seq![right_brace()]
}

/// The tokens that write the first `n` statements of a list.
pub open spec fn print_statements(statements: Seq<SpecStatement>, n: nat) -> Seq<SpecToken>
    decreases statements, n,
{
    if n == 0 || n > statements.len() {
        Seq::empty()
    } else {
        print_statements(statements, (n - 1) as nat) + print_statement(statements[n - 1])
    }
}

/// The tokens that write a statement; each statement ends with a
/// semicolon.
pub open spec fn print_statement(s: SpecStatement) -> Seq<SpecToken>
    decreases s,
{
    match s {
        SpecStatement::Let { name, value, .. } => seq![
            keyword_let(),
            name_token(name.value),
            assign(),
        ] + print_expression(value) + seq![semicolon()],
        SpecStatement::Return { value, .. } => seq![keyword_return()] + print_expression(value)
            + seq![semicolon()],
        SpecStatement::Expression { expression, .. } => print_expression(expression) + seq![
            semicolon(),
        ],
        SpecStatement::Block(b) => print_block(b.statements),
    }
}

/// The tokens that write a program, with the end-of-input token behind
/// them.
pub open spec fn print_program(statements: Seq<SpecStatement>) -> Seq<SpecToken> {
    print_statements(statements, statements.len()) + seq![crate::token::eof_token()]
}

/// An expression with, in every node, the token that the printer writes
/// for the node in place of the node's own. Nothing else changes:
/// the result has the structure of the expression.
pub open spec fn retokened(e: SpecExpression) -> SpecExpression
    decreases e,
{
    match e {
        SpecExpression::Ident(name) => SpecExpression::Ident(
            identifier_of(name_token(name.value)),
        ),
        SpecExpression::Integer { value, .. } => SpecExpression::Integer {
            token: integer_token(value),
            value: value,
        },
        SpecExpression::Boolean { value, .. } => SpecExpression::Boolean {
            token: boolean_token(value),
            value: value,
        },
        SpecExpression::Prefix { operator, right, .. } => SpecExpression::Prefix {
            token: prefix_token(operator),
            operator: operator,
            right: Box::new(retokened(*right)),
        },
        SpecExpression::Infix { operator, left, right, .. } => SpecExpression::Infix {
            token: infix_token(operator),
            operator: operator,
            left: Box::new(retokened(*left)),
            right: Box::new(retokened(*right)),
        },
        SpecExpression::If { condition, consequence, alternative, .. } => SpecExpression::If {
            token: keyword_if(),
            condition: Box::new(retokened(*condition)),
            consequence: retokened_block(consequence.statements),
            alternative: match alternative {
                Some(b) => Some(retokened_block(b.statements)),
                None => None,
            },
        },
        SpecExpression::Function { parameters, body, .. } => SpecExpression::Function {
            token: keyword_fn(),
            parameters: retokened_parameters(parameters),
            body: retokened_block(body.statements),
        },
        SpecExpression::Call { function, arguments, .. } => SpecExpression::Call {
            token: left_parenthesis(),
            function: Box::new(retokened(*function)),
            arguments: match arguments {
                Some(list) => Some(retokened_expressions(list)),
                None => None,
            },
        },
    }
}

pub open spec fn retokened_parameters(parameters: Seq<SpecIdentifier>) -> Seq<SpecIdentifier> {
    Seq::new(parameters.len(), |i: int| identifier_of(name_token(parameters[i].value)))
}

pub open spec fn retokened_expressions(list: Seq<SpecExpression>) -> Seq<SpecExpression>
    decreases list,
{
    Seq::new(
        list.len(),
        |i: int|
            if 0 <= i < list.len() {
                retokened(list[i])
            } else {
                arbitrary()
            },
    )
}

pub open spec fn retokened_block(statements: Seq<SpecStatement>) -> SpecBlock
    decreases statements, statements.len() + 1,
{
    SpecBlock { token: left_brace(), statements: retokened_statements(statements) }
}

pub open spec fn retokened_statements(statements: Seq<SpecStatement>) -> Seq<SpecStatement>
    decreases statements, statements.len(),
{
    Seq::new(
        statements.len(),
        |i: int|
            if 0 <= i < statements.len() {
                retokened_statement(statements[i])
            } else {
                arbitrary()
            },
    )
}

/// The first token of what the printer writes for an expression.
pub open spec fn first_token(e: SpecExpression) -> SpecToken {
    print_expression(e)[0]
}

pub open spec fn retokened_statement(s: SpecStatement) -> SpecStatement
    decreases s,
{
    match s {
        SpecStatement::Let { name, value, .. } => SpecStatement::Let {
            token: keyword_let(),
            name: identifier_of(name_token(name.value)),
            value: retokened(value),
        },
        SpecStatement::Return { value, .. } => SpecStatement::Return {
            token: keyword_return(),
            value: retokened(value),
        },
        SpecStatement::Expression { expression, .. } => SpecStatement::Expression {
            token: first_token(expression),
            expression: retokened(expression),
        },
        SpecStatement::Block(b) => SpecStatement::Block(retokened_block(b.statements)),
    }
}

/// The text that the printer writes for a program.
pub open spec fn program_text(statements: Seq<SpecStatement>) -> Seq<char> {
    text_of(print_statements(statements, statements.len()))
}

/// Whether a text is an identifier of the language.
pub fn is_identifier(name: &str) -> (r: bool)
    ensures
        r == identifier_text(name@),
{
    let n = name.unicode_len();
    if n == 0 {
        return false;
    }
    if !is_letter(name.get_char(0)) {
        return false;
    }
    let mut i: usize = 1;
    while i < n
        invariant
            1 <= i <= n,
            n == name@.len(),
            forall|j: int| 1 <= j < i ==> in_class(#[trigger] name@[j], CharClass::Word),
        decreases n - i,
    {
        let c = name.get_char(i);
        if !(is_letter(c) || is_digit(c)) {
            assert(!in_class(name@[i as int], CharClass::Word));
            return false;
        }
        i += 1;
    }
    TokenType::lookup_keyword(name) == TokenType::IDENT
}

/// Writes a token behind what `out` holds: its literal and a space.
fn write_token(out: &mut String, literal: &str, Ghost(t): Ghost<SpecToken>)
    requires
        literal@ == t.literal,
    ensures
        final(out)@ == old(out)@ + text_of(seq![t]),
{
    proof {
        reveal_strlit(" ");
        crate::writer::lemma_text_of_one(t);
    }
    out.append(literal);
    out.append(" ");
    assert(out@ =~= old(out)@ + t.literal.push(' '));
}

/// What is written after one more piece.
proof fn lemma_written(start: Seq<char>, written: Seq<SpecToken>, piece: Seq<SpecToken>)
    ensures
        start + text_of(written) + text_of(piece) == start + text_of(written + piece),
{
    crate::writer::lemma_text_of_add(written, piece);
    assert(start + text_of(written) + text_of(piece) =~= start + (text_of(written) + text_of(
        piece,
    )));
}

/// Writes an expression behind what `out` holds, if the printer can write
/// it, and says whether it can.
fn write_expression(e: &MonkeyExpression, out: &mut String) -> (ok: bool)
    ensures
        ok == printable(e@),
        ok ==> final(out)@ == old(out)@ + text_of(print_expression(e@)),
    decreases *e,
{
    let ghost start = out@;
    let ghost none = Seq::<SpecToken>::empty();
    proof {
        lemma_expression_view(*e);
        assert(start + text_of(none) =~= start);
    }
    match e {
        MonkeyExpression::IDENT(x) => {
            if !is_identifier(x.value.as_str()) {
                return false;
            }
            write_token(out, x.value.as_str(), Ghost(name_token(x.value@)));
            true
        },
        MonkeyExpression::INTEGERLITERAL(x) => {
            if x.value < 0 {
                return false;
            }
            proof {
                reveal_strlit(" ");
                crate::writer::lemma_text_of_one(integer_token(x.value));
            }
            append_digits(out, x.value as u64);
            out.append(" ");
            assert(out@ =~= start + digits(x.value as nat).push(' '));
            true
        },
        MonkeyExpression::BOOLEAN(x) => {
            if x.value {
                write_token(out, "true", Ghost(boolean_token(true)));
            } else {
                write_token(out, "false", Ghost(boolean_token(false)));
            }
            true
        },
        MonkeyExpression::PREFIX(x) => {
            if decode_prefix_operator(x.operator.as_str()).is_none() {
                return false;
            }
            let ghost r = print_expression((*x.right)@);
            let ghost op = prefix_token(x.operator@);
            write_token(out, "(", Ghost(left_parenthesis()));
            write_token(out, x.operator.as_str(), Ghost(op));
            if !write_expression(&x.right, out) {
                return false;
            }
            write_token(out, ")", Ghost(right_parenthesis()));
            proof {
                let head = seq![left_parenthesis(), op];
                lemma_written(start, none, seq![left_parenthesis()]);
                lemma_written(start, seq![left_parenthesis()], seq![op]);
                assert(seq![left_parenthesis()] + seq![op] =~= head);
                assert(none + seq![left_parenthesis()] =~= seq![left_parenthesis()]);
                lemma_written(start, head, r);
                lemma_written(start, head + r, seq![right_parenthesis()]);
            }
            true
        },
        MonkeyExpression::INFIX(x) => {
            if decode_infix_operator(x.operator.as_str()).is_none() {
                return false;
            }
            let ghost l = print_expression((*x.left)@);
            let ghost r = print_expression((*x.right)@);
            let ghost op = infix_token(x.operator@);
            write_token(out, "(", Ghost(left_parenthesis()));
            if !write_expression(&x.left, out) {
                return false;
            }
            write_token(out, x.operator.as_str(), Ghost(op));
            if !write_expression(&x.right, out) {
                return false;
            }
            write_token(out, ")", Ghost(right_parenthesis()));
            proof {
                let lp = seq![left_parenthesis()];
                lemma_written(start, none, lp);
                assert(none + lp =~= lp);
                lemma_written(start, lp, l);
                lemma_written(start, lp + l, seq![op]);
                lemma_written(start, lp + l + seq![op], r);
                lemma_written(start, lp + l + seq![op] + r, seq![right_parenthesis()]);
            }
            true
        },
        MonkeyExpression::IF(x) => {
            let ghost c = print_expression((*x.condition)@);
            let ghost head = seq![keyword_if(), left_parenthesis()];
            proof {
                lemma_block_view(x.consequence);
                if x.alternative is Some {
                    lemma_block_view(x.alternative->Some_0);
                }
            }
            let ghost b = print_block(statements_view(x.consequence.statements@));
            write_token(out, "if", Ghost(keyword_if()));
            write_token(out, "(", Ghost(left_parenthesis()));
            if !write_expression(&x.condition, out) {
                return false;
            }
            write_token(out, ")", Ghost(right_parenthesis()));
            if !write_block(&x.consequence.statements, out) {
                return false;
            }
            proof {
                lemma_written(start, none, seq![keyword_if()]);
                assert(none + seq![keyword_if()] =~= seq![keyword_if()]);
                lemma_written(start, seq![keyword_if()], seq![left_parenthesis()]);
                assert(seq![keyword_if()] + seq![left_parenthesis()] =~= head);
                lemma_written(start, head, c);
                lemma_written(start, head + c, seq![right_parenthesis()]);
                lemma_written(start, head + c + seq![right_parenthesis()], b);
            }
            match &x.alternative {
                Some(alternative) => {
                    let ghost a = print_block(statements_view(alternative.statements@));
                    write_token(out, "else", Ghost(keyword_else()));
                    if !write_block(&alternative.statements, out) {
                        return false;
                    }
                    proof {
                        let sofar = head + c + seq![right_parenthesis()] + b;
                        lemma_written(start, sofar, seq![keyword_else()]);
                        lemma_written(start, sofar + seq![keyword_else()], a);
                        assert(sofar + seq![keyword_else()] + a =~= sofar + (seq![keyword_else()]
                            + a));
                    }
                    true
                },
                None => {
                    proof {
                        let sofar = head + c + seq![right_parenthesis()] + b;
                        assert(sofar + none =~= sofar);
                    }
                    true
                },
            }
        },
        MonkeyExpression::FUNCTIONLITERAL(x) => {
            let ghost head = seq![keyword_fn(), left_parenthesis()];
            proof {
                lemma_block_view(x.blockstatment);
            }
            let ghost p = print_parameters(
                identifiers_view(x.parameters@),
                x.parameters@.len() as nat,
            );
            let ghost b = print_block(statements_view(x.blockstatment.statements@));
            write_token(out, "fn", Ghost(keyword_fn()));
            write_token(out, "(", Ghost(left_parenthesis()));
            if !write_parameters(&x.parameters, out) {
                return false;
            }
            write_token(out, ")", Ghost(right_parenthesis()));
            if !write_block(&x.blockstatment.statements, out) {
                return false;
            }
            proof {
                lemma_written(start, none, seq![keyword_fn()]);
                assert(none + seq![keyword_fn()] =~= seq![keyword_fn()]);
                lemma_written(start, seq![keyword_fn()], seq![left_parenthesis()]);
                assert(seq![keyword_fn()] + seq![left_parenthesis()] =~= head);
                lemma_written(start, head, p);
                lemma_written(start, head + p, seq![right_parenthesis()]);
                lemma_written(start, head + p + seq![right_parenthesis()], b);
            }
            true
        },
        MonkeyExpression::CALL(x) => {
            let ghost f = print_expression((*x.function)@);
            let ghost lp = seq![left_parenthesis()];
            let ghost tail = seq![right_parenthesis(), right_parenthesis()];
            write_token(out, "(", Ghost(left_parenthesis()));
            if !write_expression(&x.function, out) {
                return false;
            }
            write_token(out, "(", Ghost(left_parenthesis()));
            proof {
                lemma_written(start, none, lp);
                assert(none + lp =~= lp);
                lemma_written(start, lp, f);
                lemma_written(start, lp + f, lp);
            }
            let ghost a = if x.arguments is Some {
                print_expressions(
                    expressions_view(x.arguments->Some_0@),
                    x.arguments->Some_0@.len() as nat,
                )
            } else {
                Seq::<SpecToken>::empty()
            };
            match &x.arguments {
                Some(list) => {
                    proof {
                        lemma_expressions_view(list@);
                    }
                    if list.len() == 0 {
                        return false;
                    }
                    if !write_expressions(list, out) {
                        return false;
                    }
                },
                None => {
                    proof {
                        assert(text_of(none) =~= Seq::<char>::empty());
                        assert(out@ + text_of(none) =~= out@);
                    }
                },
            }
            write_token(out, ")", Ghost(right_parenthesis()));
            write_token(out, ")", Ghost(right_parenthesis()));
            proof {
                lemma_written(start, lp + f + lp, a);
                lemma_written(start, lp + f + lp + a, seq![right_parenthesis()]);
                lemma_written(
                    start,
                    lp + f + lp + a + seq![right_parenthesis()],
                    seq![right_parenthesis()],
                );
                assert(lp + f + lp + a + seq![right_parenthesis()] + seq![right_parenthesis()]
                    =~= lp + f + lp + a + tail);
            }
            true
        },
    }
}

/// Writes the names of a parameter list, with commas between them.
fn write_parameters(parameters: &Vec<Identifier>, out: &mut String) -> (ok: bool)
    ensures
        ok == printable_names(identifiers_view(parameters@)),
        ok ==> final(out)@ == old(out)@ + text_of(
            print_parameters(identifiers_view(parameters@), parameters@.len() as nat),
        ),
{
    let ghost start = out@;
    let ghost names = identifiers_view(parameters@);
    let mut i: usize = 0;
    proof {
        assert(start + text_of(print_parameters(names, 0)) =~= start);
    }
    while i < parameters.len()
        invariant
            i <= parameters.len(),
            names == identifiers_view(parameters@),
            forall|j: int| 0 <= j < i ==> identifier_text((#[trigger] names[j]).value),
            out@ == start + text_of(print_parameters(names, i as nat)),
        decreases parameters.len() - i,
    {
        let name = &parameters[i].value;
        assert(names[i as int].value == name@);
        if !is_identifier(name.as_str()) {
            return false;
        }
        let ghost before = print_parameters(names, i as nat);
        if i > 0 {
            write_token(out, ",", Ghost(comma()));
            proof {
                lemma_written(start, before, seq![comma()]);
            }
        }
        write_token(out, name.as_str(), Ghost(name_token(name@)));
        proof {
            if i > 0 {
                lemma_written(start, before + seq![comma()], seq![name_token(name@)]);
                assert(before + seq![comma()] + seq![name_token(name@)] =~= before + seq![
                    comma(),
                    name_token(name@),
                ]);
            } else {
                lemma_written(start, before, seq![name_token(name@)]);
                assert(before + seq![name_token(name@)] =~= seq![name_token(name@)]);
            }
        }
        i += 1;
    }
    true
}

/// Writes the expressions of a list, with commas between them.
fn write_expressions(list: &Vec<MonkeyExpression>, out: &mut String) -> (ok: bool)
    ensures
        ok == printable_expressions(expressions_view(list@)),
        ok ==> final(out)@ == old(out)@ + text_of(
            print_expressions(expressions_view(list@), list@.len() as nat),
        ),
    decreases *list,
{
    let ghost start = out@;
    let ghost all = expressions_view(list@);
    let mut i: usize = 0;
    proof {
        lemma_expressions_view(list@);
        assert(start + text_of(print_expressions(all, 0)) =~= start);
    }
    while i < list.len()
        invariant
            i <= list.len(),
            all == expressions_view(list@),
            all.len() == list@.len(),
            forall|j: int| 0 <= j < all.len() ==> (#[trigger] all[j]) == list@[j]@,
            forall|j: int| 0 <= j < i ==> printable(#[trigger] all[j]),
            out@ == start + text_of(print_expressions(all, i as nat)),
        decreases list.len() - i,
    {
        let ghost before = print_expressions(all, i as nat);
        let ghost piece = print_expression(all[i as int]);
        if i > 0 {
            write_token(out, ",", Ghost(comma()));
            proof {
                lemma_written(start, before, seq![comma()]);
            }
        }
        if !write_expression(&list[i], out) {
            assert(!printable(all[i as int]));
            return false;
        }
        proof {
            if i > 0 {
                lemma_written(start, before + seq![comma()], piece);
            } else {
                lemma_written(start, before, piece);
                assert(before + piece =~= piece);
            }
        }
        i += 1;
    }
    true
}

/// Writes a block: its statements between braces.
fn write_block(statements: &Vec<Statement>, out: &mut String) -> (ok: bool)
    ensures
        ok == printable_statements(statements_view(statements@)),
        ok ==> final(out)@ == old(out)@ + text_of(print_block(statements_view(statements@))),
    decreases *statements, 1int,
{
    let ghost start = out@;
    let ghost none = Seq::<SpecToken>::empty();
    let ghost all = statements_view(statements@);
    proof {
        lemma_statements_view(statements@);
        assert(start + text_of(none) =~= start);
    }
    write_token(out, "{", Ghost(left_brace()));
    if !write_statements(statements, out) {
        return false;
    }
    write_token(out, "}", Ghost(right_brace()));
    proof {
        let ps = print_statements(all, all.len());
        lemma_written(start, none, seq![left_brace()]);
        assert(none + seq![left_brace()] =~= seq![left_brace()]);
        lemma_written(start, seq![left_brace()], ps);
        lemma_written(start, seq![left_brace()] + ps, seq![right_brace()]);
    }
    true
}

/// Writes the statements of a list, one behind the other.
fn write_statements(statements: &Vec<Statement>, out: &mut String) -> (ok: bool)
    ensures
        ok == printable_statements(statements_view(statements@)),
        ok ==> final(out)@ == old(out)@ + text_of(
            print_statements(statements_view(statements@), statements@.len() as nat),
        ),
    decreases *statements, 0int,
{
    let ghost start = out@;
    let ghost all = statements_view(statements@);
    let mut i: usize = 0;
    proof {
        lemma_statements_view(statements@);
        assert(start + text_of(print_statements(all, 0)) =~= start);
    }
    while i < statements.len()
        invariant
            i <= statements.len(),
            all == statements_view(statements@),
            all.len() == statements@.len(),
            forall|j: int| 0 <= j < all.len() ==> (#[trigger] all[j]) == statements@[j]@,
            forall|j: int| 0 <= j < i ==> printable_statement(#[trigger] all[j]),
            out@ == start + text_of(print_statements(all, i as nat)),
        decreases statements.len() - i,
    {
        let ghost before = print_statements(all, i as nat);
        let ghost piece = print_statement(all[i as int]);
        if !write_statement(&statements[i], out) {
            assert(!printable_statement(all[i as int]));
            return false;
        }
        proof {
            lemma_written(start, before, piece);
        }
        i += 1;
    }
    true
}

/// Writes a statement, with a semicolon behind it.
fn write_statement(s: &Statement, out: &mut String) -> (ok: bool)
    ensures
        ok == printable_statement(s@),
        ok ==> final(out)@ == old(out)@ + text_of(print_statement(s@)),
    decreases *s,
{
    let ghost start = out@;
    let ghost none = Seq::<SpecToken>::empty();
    proof {
        lemma_statement_view(*s);
        assert(start + text_of(none) =~= start);
    }
    match s {
        Statement::LET(x) => {
            if !is_identifier(x.name.value.as_str()) {
                return false;
            }
            let ghost v = print_expression(x.value@);
            let ghost head = seq![keyword_let(), name_token(x.name.value@), assign()];
            write_token(out, "let", Ghost(keyword_let()));
            write_token(out, x.name.value.as_str(), Ghost(name_token(x.name.value@)));
            write_token(out, "=", Ghost(assign()));
            if !write_expression(&x.value, out) {
                return false;
            }
            write_token(out, ";", Ghost(semicolon()));
            proof {
                lemma_written(start, none, seq![keyword_let()]);
                assert(none + seq![keyword_let()] =~= seq![keyword_let()]);
                lemma_written(start, seq![keyword_let()], seq![name_token(x.name.value@)]);
                lemma_written(
                    start,
                    seq![keyword_let()] + seq![name_token(x.name.value@)],
                    seq![assign()],
                );
                assert(seq![keyword_let()] + seq![name_token(x.name.value@)] + seq![assign()]
                    =~= head);
                lemma_written(start, head, v);
                lemma_written(start, head + v, seq![semicolon()]);
            }
            true
        },
        Statement::RETURN(x) => {
            let ghost v = print_expression(x.return_value@);
            write_token(out, "return", Ghost(keyword_return()));
            if !write_expression(&x.return_value, out) {
                return false;
            }
            write_token(out, ";", Ghost(semicolon()));
            proof {
                lemma_written(start, none, seq![keyword_return()]);
                assert(none + seq![keyword_return()] =~= seq![keyword_return()]);
                lemma_written(start, seq![keyword_return()], v);
                lemma_written(start, seq![keyword_return()] + v, seq![semicolon()]);
            }
            true
        },
        Statement::EXPRESSION(x) => {
            let ghost v = print_expression(x.expression@);
            if !write_expression(&x.expression, out) {
                return false;
            }
            write_token(out, ";", Ghost(semicolon()));
            proof {
                lemma_written(start, none, v);
                assert(none + v =~= v);
                lemma_written(start, v, seq![semicolon()]);
            }
            true
        },
        Statement::BLOCK(_) => false,
    }
}

impl Programm {
    /// The program as text that reads as the program again, or `None`
    /// where the printer cannot write the program.
    pub fn print_program(&self) -> (r: Option<String>)
        ensures
            match r {
                Some(text) => printable_statements(self@) && text@ == program_text(self@),
                None => !printable_statements(self@),
            },
    {
        let mut text = String::new();
        if write_statements(&self.statements, &mut text) {
            proof {
                lemma_statements_view(self.statements@);
                assert(Seq::<char>::empty() + program_text(self@) =~= program_text(self@));
            }
            Some(text)
        } else {
            None
        }
    }
}

} // verus!
