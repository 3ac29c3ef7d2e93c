//! What programs mean: the value of every expression and the effect of
//! every statement, stated as functions on the syntax tree and the scopes.
//!
//! Evaluation threads the scopes through: each function takes the scopes as
//! they are and returns, with its result, the scopes as it leaves them.
//! `depth` bounds how deeply calls may nest: a call made with no depth left
//! fails, so that every evaluation ends.

use vstd::prelude::*;
use crate::arithmetic::{power, truncated_quotient, wrap64};
use crate::ast::{SpecBlock, SpecExpression, SpecIdentifier, SpecStatement};
use crate::object::{bind, lookup, SpecObject, SpecScope};

verus! {

/// Why an evaluation failed.
#[derive(Debug, PartialEq, Eq, Clone, Copy, Structural)]
pub enum EvalError {
    /// An operand is of the wrong kind for its operator, or what is called
    /// is no function.
    TypeMismatch,
    /// The operator is none of the language.
    UnknownOperator,
    /// A name is not bound in the scope or in any scope around it.
    UnboundIdentifier,
    /// A call has more or fewer arguments than the function has parameters.
    ArityMismatch,
    /// The right operand of a division is zero.
    DivisionByZero,
    /// The right operand of an exponentiation is negative.
    NegativeExponent,
    /// Calls are nested more deeply than the evaluation was allowed.
    CallDepthExceeded,
}

/// The operators that stand before their operand.
#[derive(Debug, PartialEq, Eq, Clone, Copy, Structural)]
pub enum PrefixOperator {
    Bang,
    Minus,
}

/// The operators that stand between their operands.
#[derive(Debug, PartialEq, Eq, Clone, Copy, Structural)]
pub enum InfixOperator {
    Plus,
    Minus,
    Asterisk,
    Slash,
    Power,
    Lt,
    Gt,
    LtEq,
    GtEq,
    Eq,
    NotEq,
}

/// `op` is the one character `c`.
pub open spec fn spelled(op: Seq<char>, c: char) -> bool {
    op.len() == 1 && op[0] == c
}

/// `op` is the two characters `c` and `d`.
pub open spec fn spelled_two(op: Seq<char>, c: char, d: char) -> bool {
    op.len() == 2 && op[0] == c && op[1] == d
}

pub open spec fn prefix_operator(op: Seq<char>) -> Option<PrefixOperator> {
    if spelled(op, '!') {
        Some(PrefixOperator::Bang)
    } else if spelled(op, '-') {
        Some(PrefixOperator::Minus)
    } else {
        None
    }
}

pub open spec fn infix_operator(op: Seq<char>) -> Option<InfixOperator> {
    if spelled(op, '+') {
        Some(InfixOperator::Plus)
    } else if spelled(op, '-') {
        Some(InfixOperator::Minus)
    } else if spelled(op, '*') {
        Some(InfixOperator::Asterisk)
    } else if spelled(op, '/') {
        Some(InfixOperator::Slash)
    } else if spelled(op, '^') {
        Some(InfixOperator::Power)
    } else if spelled(op, '<') {
        Some(InfixOperator::Lt)
    } else if spelled(op, '>') {
        Some(InfixOperator::Gt)
    } else if spelled_two(op, '<', '=') {
        Some(InfixOperator::LtEq)
    } else if spelled_two(op, '>', '=') {
        Some(InfixOperator::GtEq)
    } else if spelled_two(op, '=', '=') {
        Some(InfixOperator::Eq)
    } else if spelled_two(op, '!', '=') {
        Some(InfixOperator::NotEq)
    } else {
        None
    }
}

/// Every value counts as true but `false` and the absent value.
pub open spec fn truthy(v: SpecObject) -> bool {
    !(v == SpecObject::Boolean(false) || v == SpecObject::Null)
}

/// `!v`.
pub open spec fn bang(v: SpecObject) -> SpecObject {
    SpecObject::Boolean(!truthy(v))
}

/// `-v`: defined for integers only.
pub open spec fn negation(v: SpecObject) -> Result<SpecObject, EvalError> {
    match v {
        SpecObject::Integer(x) => Ok(SpecObject::Integer(wrap64(-x))),
        _ => Err(EvalError::TypeMismatch),
    }
}

/// The value of a prefix operator applied to `v`.
pub open spec fn prefix_value(op: Seq<char>, v: SpecObject) -> Result<SpecObject, EvalError> {
    match prefix_operator(op) {
        Some(PrefixOperator::Bang) => Ok(bang(v)),
        Some(PrefixOperator::Minus) => negation(v),
        None => Err(EvalError::UnknownOperator),
    }
}

/// The value of an infix operator applied to two integers. Sums,
/// differences, products, quotients and powers wrap around.
pub open spec fn integer_infix_value(op: Seq<char>, l: i64, r: i64) -> Result<
    SpecObject,
    EvalError,
> {
    match infix_operator(op) {
        Some(InfixOperator::Plus) => Ok(SpecObject::Integer(wrap64(l + r))),
        Some(InfixOperator::Minus) => Ok(SpecObject::Integer(wrap64(l - r))),
        Some(InfixOperator::Asterisk) => Ok(SpecObject::Integer(wrap64(l * r))),
        Some(InfixOperator::Slash) => if r == 0 {
            Err(EvalError::DivisionByZero)
        } else {
            Ok(SpecObject::Integer(wrap64(truncated_quotient(l as int, r as int))))
        },
        Some(InfixOperator::Power) => if r < 0 {
            Err(EvalError::NegativeExponent)
        } else {
            Ok(SpecObject::Integer(wrap64(power(l as int, r as nat))))
        },
        Some(InfixOperator::Lt) => Ok(SpecObject::Boolean(l < r)),
        Some(InfixOperator::Gt) => Ok(SpecObject::Boolean(l > r)),
        Some(InfixOperator::LtEq) => Ok(SpecObject::Boolean(l <= r)),
        Some(InfixOperator::GtEq) => Ok(SpecObject::Boolean(l >= r)),
        Some(InfixOperator::Eq) => Ok(SpecObject::Boolean(l == r)),
        Some(InfixOperator::NotEq) => Ok(SpecObject::Boolean(l != r)),
        None => Err(EvalError::UnknownOperator),
    }
}

/// The value of an infix operator applied to two truth values: only
/// equality and inequality are defined for them.
pub open spec fn bool_infix_value(op: Seq<char>, l: bool, r: bool) -> Result<
    SpecObject,
    EvalError,
> {
    match infix_operator(op) {
        Some(InfixOperator::Eq) => Ok(SpecObject::Boolean(l == r)),
        Some(InfixOperator::NotEq) => Ok(SpecObject::Boolean(l != r)),
        Some(_) => Err(EvalError::TypeMismatch),
        None => Err(EvalError::UnknownOperator),
    }
}

/// The value of an infix operator applied to two values: they are two
/// integers or two truth values.
pub open spec fn infix_value(op: Seq<char>, l: SpecObject, r: SpecObject) -> Result<
    SpecObject,
    EvalError,
> {
    match (l, r) {
        (SpecObject::Integer(a), SpecObject::Integer(b)) => integer_infix_value(op, a, b),
        (SpecObject::Boolean(a), SpecObject::Boolean(b)) => bool_infix_value(op, a, b),
        _ => Err(EvalError::TypeMismatch),
    }
}

/// The value of a block whose statements gave `results`: the return signal
/// if one stopped it, else all the values together.
pub open spec fn block_value(results: Seq<SpecObject>) -> SpecObject {
    if results.len() > 0 && results[0] is Return {
        results[0]
    } else {
        SpecObject::Block(results)
    }
}

/// The value of a call whose body gave `results`: what was returned; with
/// no `return`, the value of the last statement; in an empty body, the
/// absent value.
pub open spec fn call_value(results: Seq<SpecObject>) -> SpecObject {
    if results.len() > 0 && results[0] is Return {
        *results[0]->Return_0
    } else if results.len() > 0 {
        results.last()
    } else {
        SpecObject::Null
    }
}

/// The bindings of a new call: each parameter bound to the argument in its
/// place. Where two parameters have one name, the later one counts.
pub open spec fn parameter_bindings(
    parameters: Seq<SpecIdentifier>,
    values: Seq<SpecObject>,
    n: nat,
) -> Map<Seq<char>, SpecObject>
    decreases n,
{
    if n == 0 || n > parameters.len() || n > values.len() {
        Map::empty()
    } else {
        parameter_bindings(parameters, values, (n - 1) as nat).insert(
            parameters[n - 1].value,
            values[n - 1],
        )
    }
}

/// The scopes with one more: the scope of a new call, enclosed by the scope
/// `env`, in which the parameters are bound to the arguments.
pub open spec fn entered(
    scopes: Seq<SpecScope>,
    parameters: Seq<SpecIdentifier>,
    values: Seq<SpecObject>,
    env: nat,
) -> Seq<SpecScope> {
    scopes.push(
        SpecScope {
            store: parameter_bindings(parameters, values, parameters.len()),
            outer: Some(env),
        },
    )
}

/// The value of an expression in `scope`.
#[verifier::opaque]
pub open spec fn eval_expression(e: SpecExpression, scopes: Seq<SpecScope>, scope: nat, depth: nat)
    -> (Result<SpecObject, EvalError>, Seq<SpecScope>)
    decreases depth, e, 0nat,
{
    match e {
        SpecExpression::Ident(name) => (
            match lookup(scopes, scope, name.value) {
                Some(v) => Ok(v),
                None => Err(EvalError::UnboundIdentifier),
            },
            scopes,
        ),
        SpecExpression::Integer { value, .. } => (Ok(SpecObject::Integer(value)), scopes),
        SpecExpression::Boolean { value, .. } => (Ok(SpecObject::Boolean(value)), scopes),
        SpecExpression::Prefix { operator, right, .. } => {
            let (r, after) = eval_expression(*right, scopes, scope, depth);
            match r {
                Err(err) => (Err(err), after),
                Ok(v) => (prefix_value(operator, v), after),
            }
        },
        SpecExpression::Infix { operator, left, right, .. } => {
            let (l, middle) = eval_expression(*left, scopes, scope, depth);
            match l {
                Err(err) => (Err(err), middle),
                Ok(lv) => {
                    let (r, after) = eval_expression(*right, middle, scope, depth);
                    match r {
                        Err(err) => (Err(err), after),
                        Ok(rv) => (infix_value(operator, lv, rv), after),
                    }
                },
            }
        },
        SpecExpression::If { condition, consequence, alternative, .. } => {
            let (c, after) = eval_expression(*condition, scopes, scope, depth);
            match c {
                Err(err) => (Err(err), after),
                Ok(v) => if truthy(v) {
                    eval_block(consequence.statements, after, scope, depth)
                } else {
                    match alternative {
                        Some(b) => eval_block(b.statements, after, scope, depth),
                        None => (Ok(SpecObject::Block(Seq::empty())), after),
                    }
                },
            }
        },
        SpecExpression::Function { parameters, body, .. } => (
            Ok(SpecObject::Function { parameters: parameters, body: body, env: scope }),
            scopes,
        ),
        SpecExpression::Call { function, arguments, .. } => {
            let (f, middle) = eval_expression(*function, scopes, scope, depth);
            match f {
                Err(err) => (Err(err), middle),
                Ok(SpecObject::Function { parameters, body, env }) => {
                    let (a, after) = match arguments {
                        Some(list) => eval_arguments(list, 0, Seq::empty(), middle, scope, depth),
                        None => (Ok(Seq::empty()), middle),
                    };
                    match a {
                        Err(err) => (Err(err), after),
                        Ok(values) => if values.len() != parameters.len() {
                            (Err(EvalError::ArityMismatch), after)
                        } else if depth == 0 {
                            (Err(EvalError::CallDepthExceeded), after)
                        } else {
                            let (r, last) = eval_statements(
                                body.statements,
                                0,
                                Seq::empty(),
                                entered(after, parameters, values, env),
                                after.len(),
                                (depth - 1) as nat,
                            );
                            match r {
                                Err(err) => (Err(err), last),
                                Ok(results) => (Ok(call_value(results)), last),
                            }
                        },
                    }
                },
                Ok(_) => (Err(EvalError::TypeMismatch), middle),
            }
        },
    }
}

/// The values of the arguments of a call from the `i`th on, in order, added
/// to `acc`.
#[verifier::opaque]
pub open spec fn eval_arguments(
    arguments: Seq<SpecExpression>,
    i: nat,
    acc: Seq<SpecObject>,
    scopes: Seq<SpecScope>,
    scope: nat,
    depth: nat,
) -> (Result<Seq<SpecObject>, EvalError>, Seq<SpecScope>)
    decreases depth, arguments, arguments.len() - i,
{
    if i >= arguments.len() {
        (Ok(acc), scopes)
    } else {
        let (r, after) = eval_expression(arguments[i as int], scopes, scope, depth);
        match r {
            Err(err) => (Err(err), after),
            Ok(v) => eval_arguments(arguments, i + 1, acc.push(v), after, scope, depth),
        }
    }
}

/// The value of a block in `scope`: a block has no scope of its own.
#[verifier::opaque]
pub open spec fn eval_block(
    statements: Seq<SpecStatement>,
    scopes: Seq<SpecScope>,
    scope: nat,
    depth: nat,
) -> (Result<SpecObject, EvalError>, Seq<SpecScope>)
    decreases depth, statements, statements.len() + 1,
{
    let (r, after) = eval_statements(statements, 0, Seq::empty(), scopes, scope, depth);
    match r {
        Err(err) => (Err(err), after),
        Ok(results) => (Ok(block_value(results)), after),
    }
}

/// The values of the statements from the `i`th on, in order, added to
/// `acc`. A statement whose value is a return signal ends the sequence, and
/// the signal alone is the result.
#[verifier::opaque]
pub open spec fn eval_statements(
    statements: Seq<SpecStatement>,
    i: nat,
    acc: Seq<SpecObject>,
    scopes: Seq<SpecScope>,
    scope: nat,
    depth: nat,
) -> (Result<Seq<SpecObject>, EvalError>, Seq<SpecScope>)
    decreases depth, statements, statements.len() - i,
{
    if i >= statements.len() {
        (Ok(acc), scopes)
    } else {
        let (r, after) = eval_statement(statements[i as int], scopes, scope, depth);
        match r {
            Err(err) => (Err(err), after),
            Ok(v) => if v is Return {
                (Ok(seq![v]), after)
            } else {
                eval_statements(statements, i + 1, acc.push(v), after, scope, depth)
            },
        }
    }
}

/// The value of one statement in `scope`, and what it does to the scopes.
#[verifier::opaque]
pub open spec fn eval_statement(s: SpecStatement, scopes: Seq<SpecScope>, scope: nat, depth: nat)
    -> (Result<SpecObject, EvalError>, Seq<SpecScope>)
    decreases depth, s, 0nat,
{
    match s {
        SpecStatement::Let { name, value, .. } => {
            let (r, after) = eval_expression(value, scopes, scope, depth);
            match r {
                Err(err) => (Err(err), after),
                Ok(v) => (Ok(SpecObject::Null), bind(after, scope, name.value, v)),
            }
        },
        SpecStatement::Return { value, .. } => {
            let (r, after) = eval_expression(value, scopes, scope, depth);
            match r {
                Err(err) => (Err(err), after),
                Ok(v) => (Ok(SpecObject::Return(Box::new(v))), after),
            }
        },
        SpecStatement::Expression { expression, .. } => eval_expression(
            expression,
            scopes,
            scope,
            depth,
        ),
        SpecStatement::Block(b) => eval_block(b.statements, scopes, scope, depth),
    }
}

/// The value of a call of a function with the arguments `values`. There
/// must be as many arguments as parameters, and depth must be left. The
/// body runs in a new scope, enclosed by the scope the function was made
/// in, in which the parameters are bound to the arguments.
pub open spec fn apply_function(
    parameters: Seq<SpecIdentifier>,
    body: SpecBlock,
    env: nat,
    values: Seq<SpecObject>,
    scopes: Seq<SpecScope>,
    depth: nat,
) -> (Result<SpecObject, EvalError>, Seq<SpecScope>) {
    if values.len() != parameters.len() {
        (Err(EvalError::ArityMismatch), scopes)
    } else if depth == 0 {
        (Err(EvalError::CallDepthExceeded), scopes)
    } else {
        let (r, after) = eval_statements(
            body.statements,
            0,
            Seq::empty(),
            entered(scopes, parameters, values, env),
            scopes.len(),
            (depth - 1) as nat,
        );
        match r {
            Err(err) => (Err(err), after),
            Ok(results) => (Ok(call_value(results)), after),
        }
    }
}

/// The values of the statements of a program, run in `scope`.
pub open spec fn eval_program(
    statements: Seq<SpecStatement>,
    scopes: Seq<SpecScope>,
    scope: nat,
    depth: nat,
) -> (Result<Seq<SpecObject>, EvalError>, Seq<SpecScope>) {
    eval_statements(statements, 0, Seq::empty(), scopes, scope, depth)
}

} // verus!
