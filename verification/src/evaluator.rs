//! The evaluator: runs a syntax tree against the scopes, and proves that
//! what it returns and what it leaves in the scopes is what the language's
//! definition gives.

use vstd::prelude::*;
use crate::arithmetic::{wrapping_difference, wrapping_power, wrapping_product, wrapping_quotient, wrapping_sum};
use crate::ast::{block_view, clone_block, clone_identifiers, expressions_view, identifiers_view, lemma_block_view, lemma_expression_view, lemma_expressions_view, lemma_statement_view, lemma_statements_view, statements_view, MonkeyExpression, Statement};
use crate::object::{lookup, bindings_view, lemma_object_view, lemma_objects_view, lemma_objects_view_empty, lemma_objects_view_push, objects_view, Bool, Environment, Function, Integer, MonkeyObject, SpecObject, SpecScope};
use crate::semantics;
use crate::semantics::{bang, block_value, call_value, bool_infix_value, infix_operator, infix_value, integer_infix_value, negation, parameter_bindings, prefix_operator, truthy, EvalError, InfixOperator, PrefixOperator};
use crate::token::{BlockStatement, Boolean, CallExpression, ExpressionStatement, FunctionLiteral, Identifier, IfExpression, InfixExpression, IntegerLiteral, LetStatement, PrefixExpression, ReturnStatement};

verus! {

/// `r` is the value or the error `expected`.
pub open spec fn valued(expected: Result<SpecObject, EvalError>, r: Result<MonkeyObject, EvalError>)
    -> bool {
    match expected {
        Ok(v) => r is Ok && r->Ok_0@ == v,
        Err(e) => r is Err && r->Err_0 == e,
    }
}

/// An evaluation gave `r` and left the scopes `scopes`, as `expected`
/// says.
pub open spec fn evaluated(
    expected: (Result<SpecObject, EvalError>, Seq<SpecScope>),
    r: Result<MonkeyObject, EvalError>,
    scopes: Seq<SpecScope>,
) -> bool {
    scopes == expected.1 && valued(expected.0, r)
}

/// An evaluation gave the values or the error `r` and left the scopes
/// `scopes`, as `expected` says.
pub open spec fn all_evaluated(
    expected: (Result<Seq<SpecObject>, EvalError>, Seq<SpecScope>),
    r: Result<Vec<MonkeyObject>, EvalError>,
    scopes: Seq<SpecScope>,
) -> bool {
    scopes == expected.1 && match expected.0 {
        Ok(v) => r is Ok && objects_view(r->Ok_0@) == v,
        Err(e) => r is Err && r->Err_0 == e,
    }
}

/// The operator that `op` spells, if it is a prefix operator.
pub fn decode_prefix_operator(op: &str) -> (r: Option<PrefixOperator>)
    ensures
        r == prefix_operator(op@),
{
    if op.unicode_len() != 1 {
        return None;
    }
    let c = op.get_char(0);
    if c == '!' {
        Some(PrefixOperator::Bang)
    } else if c == '-' {
        Some(PrefixOperator::Minus)
    } else {
        None
    }
}

/// The operator that `op` spells, if it is an infix operator.
pub fn decode_infix_operator(op: &str) -> (r: Option<InfixOperator>)
    ensures
        r == infix_operator(op@),
{
    let n = op.unicode_len();
    if n == 1 {
        let c = op.get_char(0);
        if c == '+' {
            Some(InfixOperator::Plus)
        } else if c == '-' {
            Some(InfixOperator::Minus)
        } else if c == '*' {
            Some(InfixOperator::Asterisk)
        } else if c == '/' {
            Some(InfixOperator::Slash)
        } else if c == '^' {
            Some(InfixOperator::Power)
        } else if c == '<' {
            Some(InfixOperator::Lt)
        } else if c == '>' {
            Some(InfixOperator::Gt)
        } else {
            None
        }
    } else if n == 2 {
        let c = op.get_char(0);
        let d = op.get_char(1);
        if d != '=' {
            None
        } else if c == '<' {
            Some(InfixOperator::LtEq)
        } else if c == '>' {
            Some(InfixOperator::GtEq)
        } else if c == '=' {
            Some(InfixOperator::Eq)
        } else if c == '!' {
            Some(InfixOperator::NotEq)
        } else {
            None
        }
    } else {
        None
    }
}

/// Whether a value counts as true.
pub fn is_truthy(value: &MonkeyObject) -> (r: bool)
    ensures
        r == truthy(value@),
{
    proof {
        lemma_object_view(*value);
    }
    match value {
        MonkeyObject::BOOLEAN(x) => x.value,
        MonkeyObject::NULL(_) => false,
        _ => true,
    }
}

/// Runs the statements of a program in `scope`, with calls nested at most
/// `depth` deep. Returns the values of the statements, or, where a
/// statement gave a return signal, the signal alone.
pub fn eval(program: &Vec<Statement>, env: &mut Environment, scope: usize, depth: usize) -> (r:
    Result<Vec<MonkeyObject>, EvalError>)
    ensures
        all_evaluated(
            semantics::eval_program(
                statements_view(program@),
                old(env)@,
                scope as nat,
                depth as nat,
            ),
            r,
            final(env)@,
        ),
    decreases 2 * depth + 1, *program, 0int,
{
    let ghost statements = statements_view(program@);
    let mut results: Vec<MonkeyObject> = Vec::new();
    let mut i: usize = 0;
    proof {
        lemma_objects_view_empty();
        lemma_statements_view(program@);
    }
    while i < program.len()
        invariant
            i <= program.len(),
            statements == statements_view(program@),
            statements.len() == program.len(),
            semantics::eval_statements(
                statements,
                i as nat,
                objects_view(results@),
                env@,
                scope as nat,
                depth as nat,
            ) == semantics::eval_statements(
                statements,
                0,
                Seq::empty(),
                old(env)@,
                scope as nat,
                depth as nat,
            ),
        decreases program.len() - i,
    {
        proof {
            reveal(semantics::eval_statements);
            reveal(semantics::eval_statement);
            lemma_statements_view(program@);
        }
        let object = match eval_statement(&program[i], env, scope, depth) {
            Ok(x) => x,
            Err(e) => {
                return Err(e);
            },
        };
        proof {
            lemma_object_view(object);
        }
        match object {
            MonkeyObject::RETURN(x) => {
                let signal = MonkeyObject::RETURN(x);
                let only = vec![signal];
                proof {
                    lemma_objects_view(only@);
                    assert(objects_view(only@) =~= seq![signal@]);
                }
                return Ok(only);
            },
            other => {
                proof {
                    lemma_objects_view_push(results@, other);
                }
                results.push(other);
            },
        }
        i += 1;
    }
    proof {
        reveal(semantics::eval_statements);
    }
    Ok(results)
}

/// Runs one statement.
fn eval_statement(node: &Statement, env: &mut Environment, scope: usize, depth: usize) -> (r:
    Result<MonkeyObject, EvalError>)
    ensures
        evaluated(
            semantics::eval_statement(node@, old(env)@, scope as nat, depth as nat),
            r,
            final(env)@,
        ),
    decreases 2 * depth + 1, *node, 1int,
{
    match node {
        Statement::LET(stmt) => eval_let_statement(stmt, env, scope, depth),
        Statement::RETURN(stmt) => eval_return_statement(stmt, env, scope, depth),
        Statement::EXPRESSION(stmt) => eval_expr_statement(stmt, env, scope, depth),
        Statement::BLOCK(stmt) => {
            proof {
                lemma_statement_view(*node);
                lemma_block_view(*stmt);
                reveal(semantics::eval_statement);
                reveal(semantics::eval_block);
            }
            eval_block(stmt, env, scope, depth)
        },
    }
}

/// Binds the name of a `let` to the value of its expression, in `scope`
/// itself. The value of the statement is the absent value.
fn eval_let_statement(node: &LetStatement, env: &mut Environment, scope: usize, depth: usize) -> (r:
    Result<MonkeyObject, EvalError>)
    ensures
        evaluated(
            semantics::eval_statement(node@, old(env)@, scope as nat, depth as nat),
            r,
            final(env)@,
        ),
    decreases 2 * depth + 1, *node, 0int,
{
    proof {
        lemma_statement_view(Statement::LET(*node));
        reveal(semantics::eval_statement);
        reveal(semantics::eval_expression);
    }
    let value = match eval_expr(&node.value, env, scope, depth) {
        Ok(x) => x,
        Err(e) => {
            return Err(e);
        },
    };
    env.set(scope, node.name.value.clone(), value);
    Ok(MonkeyObject::null())
}

/// Wraps the value of the expression of a `return` in a return signal.
fn eval_return_statement(
    node: &ReturnStatement,
    env: &mut Environment,
    scope: usize,
    depth: usize,
) -> (r: Result<MonkeyObject, EvalError>)
    ensures
        evaluated(
            semantics::eval_statement(node@, old(env)@, scope as nat, depth as nat),
            r,
            final(env)@,
        ),
    decreases 2 * depth + 1, *node, 0int,
{
    proof {
        lemma_statement_view(Statement::RETURN(*node));
        reveal(semantics::eval_statement);
        reveal(semantics::eval_expression);
    }
    match eval_expr(&node.return_value, env, scope, depth) {
        Ok(x) => Ok(MonkeyObject::returning(x)),
        Err(e) => Err(e),
    }
}

/// The value of the values of a block: the return signal if one stopped
/// the block, else all the values together.
pub fn hanlde_block_result(block_result: Vec<MonkeyObject>) -> (r: MonkeyObject)
    ensures
        r@ == block_value(objects_view(block_result@)),
{
    let mut block_result = block_result;
    proof {
        lemma_objects_view(block_result@);
    }
    if block_result.len() > 0 {
        proof {
            lemma_object_view(block_result@[0]);
        }
        let stopped = match &block_result[0] {
            MonkeyObject::RETURN(_) => true,
            _ => false,
        };
        if stopped {
            return block_result.remove(0);
        }
    }
    MonkeyObject::block(block_result)
}

fn eval_expr_statement(
    node: &ExpressionStatement,
    env: &mut Environment,
    scope: usize,
    depth: usize,
) -> (r: Result<MonkeyObject, EvalError>)
    ensures
        evaluated(
            semantics::eval_statement(node@, old(env)@, scope as nat, depth as nat),
            r,
            final(env)@,
        ),
    decreases 2 * depth + 1, *node, 0int,
{
    proof {
        lemma_statement_view(Statement::EXPRESSION(*node));
        reveal(semantics::eval_statement);
        reveal(semantics::eval_expression);
    }
    eval_expr(&node.expression, env, scope, depth)
}

/// Runs the statements of a block, in `scope` itself.
fn eval_block(block: &BlockStatement, env: &mut Environment, scope: usize, depth: usize) -> (r:
    Result<MonkeyObject, EvalError>)
    ensures
        evaluated(
            semantics::eval_block(
                statements_view(block.statements@),
                old(env)@,
                scope as nat,
                depth as nat,
            ),
            r,
            final(env)@,
        ),
    decreases 2 * depth + 1, *block, 0int,
{
    proof {
        reveal(semantics::eval_block);
        reveal(semantics::eval_statements);
    }
    match eval(&block.statements, env, scope, depth) {
        Ok(results) => Ok(hanlde_block_result(results)),
        Err(e) => Err(e),
    }
}

/// The value of an expression in `scope`.
fn eval_expr(expr: &MonkeyExpression, env: &mut Environment, scope: usize, depth: usize) -> (r:
    Result<MonkeyObject, EvalError>)
    ensures
        evaluated(
            semantics::eval_expression(expr@, old(env)@, scope as nat, depth as nat),
            r,
            final(env)@,
        ),
    decreases 2 * depth + 1, *expr, 1int,
{
    proof {
        lemma_expression_view(*expr);
        reveal(semantics::eval_expression);
    }
    match expr {
        MonkeyExpression::INTEGERLITERAL(x) => Ok(eval_integer_literal(x)),
        MonkeyExpression::BOOLEAN(x) => Ok(eval_bool(x)),
        MonkeyExpression::PREFIX(x) => eval_prefix_expr(x, env, scope, depth),
        MonkeyExpression::INFIX(x) => eval_infix_expr(x, env, scope, depth),
        MonkeyExpression::IF(x) => eval_if_expr(x, env, scope, depth),
        MonkeyExpression::IDENT(x) => eval_ident(x, env, scope),
        MonkeyExpression::FUNCTIONLITERAL(x) => Ok(eval_functionliteral(x, scope)),
        MonkeyExpression::CALL(x) => eval_call_expr(x, env, scope, depth),
    }
}

/// The value of an integer literal: the integer it writes.
pub fn eval_integer_literal(int_lit: &IntegerLiteral) -> (r: MonkeyObject)
    ensures
        r@ == SpecObject::Integer(int_lit.value),
{
    MonkeyObject::integer(int_lit.value)
}

/// The value of `true` or `false`.
pub fn eval_bool(bool_lit: &Boolean) -> (r: MonkeyObject)
    ensures
        r@ == SpecObject::Boolean(bool_lit.value),
{
    MonkeyObject::boolean(bool_lit.value)
}

fn eval_prefix_expr(x: &PrefixExpression, env: &mut Environment, scope: usize, depth: usize) -> (r:
    Result<MonkeyObject, EvalError>)
    ensures
        evaluated(
            semantics::eval_expression(x@, old(env)@, scope as nat, depth as nat),
            r,
            final(env)@,
        ),
    decreases 2 * depth + 1, *x, 0int,
{
    proof {
        lemma_expression_view(MonkeyExpression::PREFIX(*x));
        reveal(semantics::eval_expression);
    }
    let right = match eval_expr(&x.right, env, scope, depth) {
        Ok(v) => v,
        Err(e) => {
            return Err(e);
        },
    };
    match decode_prefix_operator(x.operator.as_str()) {
        Some(PrefixOperator::Bang) => Ok(eval_bang_operator_expr(right)),
        Some(PrefixOperator::Minus) => eval_minus_operator_expr(right),
        None => Err(EvalError::UnknownOperator),
    }
}

/// `!right`: true for `false` and for the absent value, false for every
/// other value.
pub fn eval_bang_operator_expr(right: MonkeyObject) -> (r: MonkeyObject)
    ensures
        r@ == bang(right@),
{
    MonkeyObject::boolean(!is_truthy(&right))
}

/// `-right`, for an integer; other values have no negation.
pub fn eval_minus_operator_expr(right: MonkeyObject) -> (r: Result<MonkeyObject, EvalError>)
    ensures
        valued(negation(right@), r),
{
    proof {
        lemma_object_view(right);
    }
    match right {
        MonkeyObject::INTEGER(x) => Ok(MonkeyObject::integer(wrapping_difference(0, x.value))),
        _ => Err(EvalError::TypeMismatch),
    }
}

fn eval_infix_expr(x: &InfixExpression, env: &mut Environment, scope: usize, depth: usize) -> (r:
    Result<MonkeyObject, EvalError>)
    ensures
        evaluated(
            semantics::eval_expression(x@, old(env)@, scope as nat, depth as nat),
            r,
            final(env)@,
        ),
    decreases 2 * depth + 1, *x, 0int,
{
    proof {
        lemma_expression_view(MonkeyExpression::INFIX(*x));
        reveal(semantics::eval_expression);
    }
    let left = match eval_expr(&x.left, env, scope, depth) {
        Ok(v) => v,
        Err(e) => {
            return Err(e);
        },
    };
    let right = match eval_expr(&x.right, env, scope, depth) {
        Ok(v) => v,
        Err(e) => {
            return Err(e);
        },
    };
    apply_infix_operator(x.operator.as_str(), left, right)
}

/// The value of an infix operator applied to two values.
pub fn apply_infix_operator(operator: &str, left: MonkeyObject, right: MonkeyObject) -> (r: Result<
    MonkeyObject,
    EvalError,
>)
    ensures
        valued(infix_value(operator@, left@, right@), r),
{
    proof {
        lemma_object_view(left);
        lemma_object_view(right);
    }
    match (left, right) {
        (MonkeyObject::INTEGER(l), MonkeyObject::INTEGER(r)) => eval_integer_infix_expr(
            operator,
            &l,
            &r,
        ),
        (MonkeyObject::BOOLEAN(l), MonkeyObject::BOOLEAN(r)) => eval_bool_infix_expr(
            operator,
            &l,
            &r,
        ),
        _ => Err(EvalError::TypeMismatch),
    }
}

/// The value of an infix operator applied to two integers.
pub fn eval_integer_infix_expr(operator: &str, left: &Integer, right: &Integer) -> (r: Result<
    MonkeyObject,
    EvalError,
>)
    ensures
        valued(integer_infix_value(operator@, left.value, right.value), r),
{
    let result = match decode_infix_operator(operator) {
        Some(InfixOperator::Plus) => MonkeyObject::integer(wrapping_sum(left.value, right.value)),
        Some(InfixOperator::Minus) => MonkeyObject::integer(
            wrapping_difference(left.value, right.value),
        ),
        Some(InfixOperator::Asterisk) => MonkeyObject::integer(
            wrapping_product(left.value, right.value),
        ),
        Some(InfixOperator::Slash) => {
            if right.value == 0 {
                return Err(EvalError::DivisionByZero);
            }
            MonkeyObject::integer(wrapping_quotient(left.value, right.value))
        },
        Some(InfixOperator::Power) => {
            if right.value < 0 {
                return Err(EvalError::NegativeExponent);
            }
            MonkeyObject::integer(wrapping_power(left.value, right.value))
        },
        Some(InfixOperator::Lt) => MonkeyObject::boolean(left.value < right.value),
        Some(InfixOperator::Gt) => MonkeyObject::boolean(left.value > right.value),
        Some(InfixOperator::LtEq) => MonkeyObject::boolean(left.value <= right.value),
        Some(InfixOperator::GtEq) => MonkeyObject::boolean(left.value >= right.value),
        Some(InfixOperator::NotEq) => MonkeyObject::boolean(left.value != right.value),
        Some(InfixOperator::Eq) => MonkeyObject::boolean(left.value == right.value),
        None => {
            return Err(EvalError::UnknownOperator);
        },
    };
    Ok(result)
}

/// The value of an infix operator applied to two truth values.
pub fn eval_bool_infix_expr(operator: &str, left: &Bool, right: &Bool) -> (r: Result<
    MonkeyObject,
    EvalError,
>)
    ensures
        valued(bool_infix_value(operator@, left.value, right.value), r),
{
    let result = match decode_infix_operator(operator) {
        Some(InfixOperator::Eq) => MonkeyObject::boolean(left.value == right.value),
        Some(InfixOperator::NotEq) => MonkeyObject::boolean(left.value != right.value),
        Some(_) => {
            return Err(EvalError::TypeMismatch);
        },
        None => {
            return Err(EvalError::UnknownOperator);
        },
    };
    Ok(result)
}

fn eval_if_expr(if_expr: &IfExpression, env: &mut Environment, scope: usize, depth: usize) -> (r:
    Result<MonkeyObject, EvalError>)
    ensures
        evaluated(
            semantics::eval_expression(if_expr@, old(env)@, scope as nat, depth as nat),
            r,
            final(env)@,
        ),
    decreases 2 * depth + 1, *if_expr, 0int,
{
    proof {
        lemma_expression_view(MonkeyExpression::IF(*if_expr));
        lemma_block_view(if_expr.consequence);
        if if_expr.alternative is Some {
            lemma_block_view(if_expr.alternative->Some_0);
        }
        reveal(semantics::eval_expression);
        reveal(semantics::eval_block);
    }
    let condition = match eval_expr(&if_expr.condition, env, scope, depth) {
        Ok(v) => v,
        Err(e) => {
            return Err(e);
        },
    };
    if is_truthy(&condition) {
        eval_block(&if_expr.consequence, env, scope, depth)
    } else {
        match &if_expr.alternative {
            Some(x) => eval_block(x, env, scope, depth),
            None => {
                proof {
                    lemma_objects_view_empty();
                }
                Ok(MonkeyObject::block(Vec::new()))
            },
        }
    }
}

/// The value that a name is bound to, as seen from `scope`. A name that
/// is not bound is an error.
pub fn eval_ident(ident: &Identifier, env: &Environment, scope: usize) -> (r: Result<
    MonkeyObject,
    EvalError,
>)
    ensures
        valued(
            match lookup(env@, scope as nat, ident.value@) {
                Some(v) => Ok(v),
                None => Err(EvalError::UnboundIdentifier),
            },
            r,
        ),
{
    match env.get(scope, &ident.value) {
        Some(x) => Ok(x),
        None => Err(EvalError::UnboundIdentifier),
    }
}

/// The function value that a function literal makes in `scope`.
pub fn eval_functionliteral(func_lit: &FunctionLiteral, scope: usize) -> (r: MonkeyObject)
    ensures
        r@ == (SpecObject::Function {
            parameters: identifiers_view(func_lit.parameters@),
            body: block_view(func_lit.blockstatment),
            env: scope as nat,
        }),
{
    MonkeyObject::function(
        clone_identifiers(&func_lit.parameters),
        clone_block(&func_lit.blockstatment),
        scope,
    )
}

fn eval_call_expr(call: &CallExpression, env: &mut Environment, scope: usize, depth: usize) -> (r:
    Result<MonkeyObject, EvalError>)
    ensures
        evaluated(
            semantics::eval_expression(call@, old(env)@, scope as nat, depth as nat),
            r,
            final(env)@,
        ),
    decreases 2 * depth + 1, *call, 0int,
{
    proof {
        lemma_expression_view(MonkeyExpression::CALL(*call));
        reveal(semantics::eval_expression);
        reveal(semantics::eval_arguments);
        reveal(semantics::eval_statements);
    }
    let callee = match eval_expr(&call.function, env, scope, depth) {
        Ok(v) => v,
        Err(e) => {
            return Err(e);
        },
    };
    proof {
        lemma_object_view(callee);
    }
    match callee {
        MonkeyObject::FUNCTION(function) => {
            let arguments = match &call.arguments {
                Some(list) => match eval_arguments(list, env, scope, depth) {
                    Ok(values) => values,
                    Err(e) => {
                        return Err(e);
                    },
                },
                None => {
                    proof {
                        lemma_objects_view_empty();
                    }
                    Vec::new()
                },
            };
            proof {
                lemma_block_view(function.body);
            }
            apply_function(&function, arguments, env, depth)
        },
        _ => Err(EvalError::TypeMismatch),
    }
}

/// The values of the arguments of a call, in order.
fn eval_arguments(
    list: &Vec<MonkeyExpression>,
    env: &mut Environment,
    scope: usize,
    depth: usize,
) -> (r: Result<Vec<MonkeyObject>, EvalError>)
    ensures
        all_evaluated(
            semantics::eval_arguments(
                expressions_view(list@),
                0,
                Seq::empty(),
                old(env)@,
                scope as nat,
                depth as nat,
            ),
            r,
            final(env)@,
        ),
    decreases 2 * depth + 1, *list, 0int,
{
    let ghost arguments = expressions_view(list@);
    let mut values: Vec<MonkeyObject> = Vec::new();
    let mut i: usize = 0;
    proof {
        lemma_objects_view_empty();
        lemma_expressions_view(list@);
    }
    while i < list.len()
        invariant
            i <= list.len(),
            arguments == expressions_view(list@),
            arguments.len() == list.len(),
            semantics::eval_arguments(
                arguments,
                i as nat,
                objects_view(values@),
                env@,
                scope as nat,
                depth as nat,
            ) == semantics::eval_arguments(
                arguments,
                0,
                Seq::empty(),
                old(env)@,
                scope as nat,
                depth as nat,
            ),
        decreases list.len() - i,
    {
        proof {
            reveal(semantics::eval_arguments);
            reveal(semantics::eval_expression);
            lemma_expressions_view(list@);
        }
        let value = match eval_expr(&list[i], env, scope, depth) {
            Ok(x) => x,
            Err(e) => {
                return Err(e);
            },
        };
        proof {
            lemma_objects_view_push(values@, value);
        }
        values.push(value);
        i += 1;
    }
    proof {
        reveal(semantics::eval_arguments);
    }
    Ok(values)
}

/// The value of a call whose body gave `results`.
pub fn call_result(results: Vec<MonkeyObject>) -> (r: MonkeyObject)
    ensures
        r@ == call_value(objects_view(results@)),
{
    let mut results = results;
    proof {
        lemma_objects_view(results@);
    }
    if results.len() == 0 {
        return MonkeyObject::null();
    }
    proof {
        lemma_object_view(results@[0]);
    }
    let returned = match &results[0] {
        MonkeyObject::RETURN(_) => true,
        _ => false,
    };
    if returned {
        let first = results.remove(0);
        proof {
            lemma_object_view(first);
        }
        match first {
            MonkeyObject::RETURN(x) => *x.value,
            other => other,
        }
    } else {
        match results.pop() {
            Some(last) => last,
            None => MonkeyObject::null(),
        }
    }
}

/// Calls `function` with the arguments `arguments`: runs its body in a new
/// scope, enclosed by the scope the function was made in, in which each
/// parameter is bound to its argument. Returns what the body returned; with
/// no `return`, the value of its last statement. Calls nest at most `depth`
/// deep, this one counted.
pub fn apply_function(
    function: &Function,
    arguments: Vec<MonkeyObject>,
    env: &mut Environment,
    depth: usize,
) -> (r: Result<MonkeyObject, EvalError>)
    ensures
        evaluated(
            semantics::apply_function(
                identifiers_view(function.params@),
                block_view(function.body),
                function.env as nat,
                objects_view(arguments@),
                old(env)@,
                depth as nat,
            ),
            r,
            final(env)@,
        ),
    decreases 2 * depth, *function, 0int,
{
    let mut arguments = arguments;
    let ghost values = objects_view(arguments@);
    let ghost parameters = identifiers_view(function.params@);
    proof {
        lemma_objects_view(arguments@);
        lemma_block_view(function.body);
    }
    let n = function.params.len();
    if arguments.len() != n {
        return Err(EvalError::ArityMismatch);
    }
    if depth == 0 {
        return Err(EvalError::CallDepthExceeded);
    }
    let mut store: Vec<(String, MonkeyObject)> = Vec::new();
    let mut i: usize = 0;
    while i < n
        invariant
            i <= n,
            n == function.params@.len(),
            values.len() == n,
            parameters == identifiers_view(function.params@),
            arguments@.len() == n - i,
            forall|j: int| 0 <= j < n - i ==> (#[trigger] arguments@[j])@ == values[i + j],
            bindings_view(store@) == parameter_bindings(parameters, values, i as nat),
        decreases n - i,
    {
        let value = arguments.remove(0);
        let name = function.params[i].value.clone();
        proof {
            assert(store@.push((name, value)).drop_last() =~= store@);
        }
        store.push((name, value));
        i += 1;
    }
    let inner = env.new_enclosed_evironment(store, function.env);
    match eval(&function.body.statements, env, inner, depth - 1) {
        Err(e) => Err(e),
        Ok(results) => Ok(call_result(results)),
    }
}

} // verus!
