//! Laws of the language: what holds of every program of a given shape.

use vstd::prelude::*;
use crate::arithmetic::{lemma_wrap64_idempotent, power, truncated_quotient};
use crate::ast::{SpecExpression, SpecStatement};
use crate::object::{bind, lookup, SpecObject, SpecScope};
use crate::semantics::{
    eval_arguments, truthy,eval_expression, eval_statement, eval_statements, infix_operator, prefix_operator, EvalError};
use crate::token::SpecToken;

verus! {

/// Division. Where the operands of `/` evaluate to the integers `a` and
/// `b`, the quotient evaluates to `a / b` rounded toward zero, and to a
/// division-by-zero error where `b` is 0. (The one quotient that does not
/// fit in 64 bits, that of the least integer by -1, is left out.)
pub proof fn law_division_truncates(
    token: SpecToken,
    left: SpecExpression,
    right: SpecExpression,
    a: i64,
    b: i64,
    scopes: Seq<SpecScope>,
    middle: Seq<SpecScope>,
    after: Seq<SpecScope>,
    scope: nat,
    depth: nat,
)
    requires
        eval_expression(left, scopes, scope, depth) == (
            Ok::<SpecObject, EvalError>(SpecObject::Integer(a)),
            middle,
        ),
        eval_expression(right, middle, scope, depth) == (
            Ok::<SpecObject, EvalError>(SpecObject::Integer(b)),
            after,
        ),
        !(a == i64::MIN && b == -1),
    ensures
        b != 0 ==> eval_expression(
            SpecExpression::Infix {
                token: token,
                operator: seq!['/'],
                left: Box::new(left),
                right: Box::new(right),
            },
            scopes,
            scope,
            depth,
        ) == (
            Ok::<SpecObject, EvalError>(SpecObject::Integer(truncated_quotient(a as int, b as int) as i64)),
            after,
        ),
        b != 0 ==> i64::MIN <= truncated_quotient(a as int, b as int) <= i64::MAX,
        b == 0 ==> eval_expression(
            SpecExpression::Infix {
                token: token,
                operator: seq!['/'],
                left: Box::new(left),
                right: Box::new(right),
            },
            scopes,
            scope,
            depth,
        ) == (Err::<SpecObject, EvalError>(EvalError::DivisionByZero), after),
{
    reveal(eval_expression);
    let e = SpecExpression::Infix {
        token: token,
        operator: seq!['/'],
        left: Box::new(left),
        right: Box::new(right),
    };
    assert(infix_operator(seq!['/']) == Some(crate::semantics::InfixOperator::Slash));
    if b != 0 {
        crate::arithmetic::lemma_truncated_quotient(a as int, b as int);
        lemma_quotient_fits(a, b);
        lemma_wrap64_idempotent(truncated_quotient(a as int, b as int));
    }
}

/// The quotient of two 64-bit integers fits in 64 bits, but for that of the
/// least integer by -1.
pub proof fn lemma_quotient_fits(a: i64, b: i64)
    requires
        b != 0,
        !(a == i64::MIN && b == -1),
    ensures
        i64::MIN <= truncated_quotient(a as int, b as int) <= i64::MAX,
{
    let q = truncated_quotient(a as int, b as int);
    crate::arithmetic::lemma_truncated_quotient(a as int, b as int);
    if a >= 0 && b > 0 {
        vstd::arithmetic::div_mod::lemma_div_pos_is_pos(a as int, b as int);
        assert(q <= q * b) by (nonlinear_arith)
            requires
                q >= 0,
                b >= 1,
        ;
    } else if a < 0 && b < 0 {
        vstd::arithmetic::div_mod::lemma_div_pos_is_pos(-(a as int), -(b as int));
        assert(q * b <= -q) by (nonlinear_arith)
            requires
                q >= 0,
                b <= -1,
        ;
        if q > i64::MAX {
            assert(q * b <= -2 * q) by (nonlinear_arith)
                requires
                    q >= 0,
                    b <= -2,
            ;
        }
    } else if a < 0 {
        vstd::arithmetic::div_mod::lemma_div_pos_is_pos(-(a as int), b as int);
        assert(q * b <= q) by (nonlinear_arith)
            requires
                q <= 0,
                b >= 1,
        ;
    } else {
        vstd::arithmetic::div_mod::lemma_div_pos_is_pos(a as int, -(b as int));
        assert(-q <= q * b) by (nonlinear_arith)
            requires
                q <= 0,
                b <= -1,
        ;
    }
}

/// Exponentiation. Where the operands of `^` evaluate to the integers `a`
/// and `b`, the power evaluates to `a` multiplied by itself `b` times, as
/// far as that fits in 64 bits, and to an error where `b` is negative.
pub proof fn law_power(
    token: SpecToken,
    left: SpecExpression,
    right: SpecExpression,
    a: i64,
    b: i64,
    scopes: Seq<SpecScope>,
    middle: Seq<SpecScope>,
    after: Seq<SpecScope>,
    scope: nat,
    depth: nat,
)
    requires
        eval_expression(left, scopes, scope, depth) == (
            Ok::<SpecObject, EvalError>(SpecObject::Integer(a)),
            middle,
        ),
        eval_expression(right, middle, scope, depth) == (
            Ok::<SpecObject, EvalError>(SpecObject::Integer(b)),
            after,
        ),
        b >= 0 ==> i64::MIN <= power(a as int, b as nat) <= i64::MAX,
    ensures
        b >= 0 ==> eval_expression(
            SpecExpression::Infix {
                token: token,
                operator: seq!['^'],
                left: Box::new(left),
                right: Box::new(right),
            },
            scopes,
            scope,
            depth,
        ) == (
            Ok::<SpecObject, EvalError>(SpecObject::Integer(power(a as int, b as nat) as i64)),
            after,
        ),
        b < 0 ==> eval_expression(
            SpecExpression::Infix {
                token: token,
                operator: seq!['^'],
                left: Box::new(left),
                right: Box::new(right),
            },
            scopes,
            scope,
            depth,
        ) == (Err::<SpecObject, EvalError>(EvalError::NegativeExponent), after),
{
    reveal(eval_expression);
    assert(infix_operator(seq!['^']) == Some(crate::semantics::InfixOperator::Power));
    if b >= 0 {
        lemma_wrap64_idempotent(power(a as int, b as nat));
    }
}

/// Truthiness. Where the operand of `!` evaluates to a value, the negation
/// evaluates to `true` if the value is `false` or the absent value, and to
/// `false` for every other value.
pub proof fn law_bang(
    token: SpecToken,
    right: SpecExpression,
    v: SpecObject,
    scopes: Seq<SpecScope>,
    after: Seq<SpecScope>,
    scope: nat,
    depth: nat,
)
    requires
        eval_expression(right, scopes, scope, depth) == (Ok::<SpecObject, EvalError>(v), after),
    ensures
        eval_expression(
            SpecExpression::Prefix { token: token, operator: seq!['!'], right: Box::new(right) },
            scopes,
            scope,
            depth,
        ) == (
            Ok::<SpecObject, EvalError>(
                SpecObject::Boolean(v == SpecObject::Boolean(false) || v == SpecObject::Null),
            ),
            after,
        ),
{
    reveal(eval_expression);
    assert(prefix_operator(seq!['!']) == Some(crate::semantics::PrefixOperator::Bang));
}

/// Names. An identifier that is bound neither in the scope nor in any
/// scope around it evaluates to an error, and to no value.
pub proof fn law_unbound_identifier(
    name: crate::ast::SpecIdentifier,
    scopes: Seq<SpecScope>,
    scope: nat,
    depth: nat,
)
    requires
        lookup(scopes, scope, name.value) is None,
    ensures
        eval_expression(SpecExpression::Ident(name), scopes, scope, depth) == (
            Err::<SpecObject, EvalError>(EvalError::UnboundIdentifier),
            scopes,
        ),
{
    reveal(eval_expression);
}

/// Early return. A statement whose value is a return signal ends the
/// sequence it stands in: the statements after it are not run, and the
/// signal alone is the result, whatever came before.
pub proof fn law_return_stops(
    statements: Seq<SpecStatement>,
    i: nat,
    acc: Seq<SpecObject>,
    signal: SpecObject,
    scopes: Seq<SpecScope>,
    after: Seq<SpecScope>,
    scope: nat,
    depth: nat,
)
    requires
        i < statements.len(),
        eval_statement(statements[i as int], scopes, scope, depth) == (
            Ok::<SpecObject, EvalError>(signal),
            after,
        ),
        signal is Return,
    ensures
        eval_statements(statements, i, acc, scopes, scope, depth) == (
            Ok::<Seq<SpecObject>, EvalError>(seq![signal]),
            after,
        ),
{
    reveal(eval_statements);
    reveal(eval_statement);
}

/// An evaluation that did not run out of depth.
pub open spec fn deep_enough<T>(outcome: (Result<T, EvalError>, Seq<SpecScope>)) -> bool {
    outcome.0 != Err::<T, EvalError>(EvalError::CallDepthExceeded)
}

/// Depth is a bound and no more: an expression that is evaluated without
/// running out of depth has the same value, and leaves the same scopes,
/// with more depth.
pub proof fn law_depth_expression(
    e: SpecExpression,
    scopes: Seq<SpecScope>,
    scope: nat,
    depth: nat,
)
    requires
        deep_enough(eval_expression(e, scopes, scope, depth)),
    ensures
        eval_expression(e, scopes, scope, depth + 1) == eval_expression(e, scopes, scope, depth),
    decreases depth, e, 0nat,
{
    reveal(eval_expression);
    reveal(eval_arguments);
    reveal(crate::semantics::eval_block);
    reveal(eval_statements);
    match e {
        SpecExpression::Ident(_) => {},
        SpecExpression::Integer { .. } => {},
        SpecExpression::Boolean { .. } => {},
        SpecExpression::Prefix { right, .. } => {
            law_depth_expression(*right, scopes, scope, depth);
        },
        SpecExpression::Infix { left, right, .. } => {
            law_depth_expression(*left, scopes, scope, depth);
            let (l, middle) = eval_expression(*left, scopes, scope, depth);
            if l is Ok {
                law_depth_expression(*right, middle, scope, depth);
            }
        },
        SpecExpression::If { condition, consequence, alternative, .. } => {
            law_depth_expression(*condition, scopes, scope, depth);
            let (c, after) = eval_expression(*condition, scopes, scope, depth);
            if c is Ok {
                if truthy(c->Ok_0) {
                    law_depth_block(consequence.statements, after, scope, depth);
                } else if alternative is Some {
                    law_depth_block(alternative->Some_0.statements, after, scope, depth);
                }
            }
        },
        SpecExpression::Function { .. } => {},
        SpecExpression::Call { function, arguments, .. } => {
            law_depth_expression(*function, scopes, scope, depth);
            let (f, middle) = eval_expression(*function, scopes, scope, depth);
            if f is Ok && f->Ok_0 is Function {
                let parameters = f->Ok_0->parameters;
                let body = f->Ok_0->body;
                let env = f->Ok_0->env;
                if arguments is Some {
                    law_depth_arguments(
                        arguments->Some_0,
                        0,
                        Seq::empty(),
                        middle,
                        scope,
                        depth,
                    );
                }
                let (a, after) = match arguments {
                    Some(list) => eval_arguments(list, 0, Seq::empty(), middle, scope, depth),
                    None => (Ok(Seq::empty()), middle),
                };
                if a is Ok && a->Ok_0.len() == parameters.len() && depth > 0 {
                    law_depth_statements(
                        body.statements,
                        0,
                        Seq::empty(),
                        crate::semantics::entered(after, parameters, a->Ok_0, env),
                        after.len(),
                        (depth - 1) as nat,
                    );
                }
            }
        },
    }
}

/// Depth is a bound and no more, for the arguments of a call.
pub proof fn law_depth_arguments(
    arguments: Seq<SpecExpression>,
    i: nat,
    acc: Seq<SpecObject>,
    scopes: Seq<SpecScope>,
    scope: nat,
    depth: nat,
)
    requires
        deep_enough(eval_arguments(arguments, i, acc, scopes, scope, depth)),
    ensures
        eval_arguments(arguments, i, acc, scopes, scope, depth + 1) == eval_arguments(
            arguments,
            i,
            acc,
            scopes,
            scope,
            depth,
        ),
    decreases depth, arguments, arguments.len() - i,
{
    reveal(eval_arguments);
    reveal(eval_expression);
    if i < arguments.len() {
        law_depth_expression(arguments[i as int], scopes, scope, depth);
        let (r, after) = eval_expression(arguments[i as int], scopes, scope, depth);
        if r is Ok {
            law_depth_arguments(arguments, i + 1, acc.push(r->Ok_0), after, scope, depth);
        }
    }
}

/// Depth is a bound and no more, for a block.
pub proof fn law_depth_block(
    statements: Seq<SpecStatement>,
    scopes: Seq<SpecScope>,
    scope: nat,
    depth: nat,
)
    requires
        deep_enough(crate::semantics::eval_block(statements, scopes, scope, depth)),
    ensures
        crate::semantics::eval_block(statements, scopes, scope, depth + 1)
            == crate::semantics::eval_block(statements, scopes, scope, depth),
    decreases depth, statements, statements.len() + 1,
{
    reveal(crate::semantics::eval_block);
    reveal(eval_statements);
    law_depth_statements(statements, 0, Seq::empty(), scopes, scope, depth);
}

/// Depth is a bound and no more, for a sequence of statements.
pub proof fn law_depth_statements(
    statements: Seq<SpecStatement>,
    i: nat,
    acc: Seq<SpecObject>,
    scopes: Seq<SpecScope>,
    scope: nat,
    depth: nat,
)
    requires
        deep_enough(eval_statements(statements, i, acc, scopes, scope, depth)),
    ensures
        eval_statements(statements, i, acc, scopes, scope, depth + 1) == eval_statements(
            statements,
            i,
            acc,
            scopes,
            scope,
            depth,
        ),
    decreases depth, statements, statements.len() - i,
{
    reveal(eval_statements);
    reveal(eval_statement);
    if i < statements.len() {
        law_depth_statement(statements[i as int], scopes, scope, depth);
        let (r, after) = eval_statement(statements[i as int], scopes, scope, depth);
        if r is Ok && !(r->Ok_0 is Return) {
            law_depth_statements(statements, i + 1, acc.push(r->Ok_0), after, scope, depth);
        }
    }
}

/// Depth is a bound and no more, for a statement.
pub proof fn law_depth_statement(s: SpecStatement, scopes: Seq<SpecScope>, scope: nat, depth: nat)
    requires
        deep_enough(eval_statement(s, scopes, scope, depth)),
    ensures
        eval_statement(s, scopes, scope, depth + 1) == eval_statement(s, scopes, scope, depth),
    decreases depth, s, 0nat,
{
    reveal(eval_statement);
    reveal(eval_expression);
    reveal(crate::semantics::eval_block);
    match s {
        SpecStatement::Let { value, .. } => {
            law_depth_expression(value, scopes, scope, depth);
        },
        SpecStatement::Return { value, .. } => {
            law_depth_expression(value, scopes, scope, depth);
        },
        SpecStatement::Expression { expression, .. } => {
            law_depth_expression(expression, scopes, scope, depth);
        },
        SpecStatement::Block(b) => {
            law_depth_block(b.statements, scopes, scope, depth);
        },
    }
}

/// Binding. A name that is bound in a scope is seen from that scope with
/// the value it was bound to.
pub proof fn law_bind_then_lookup(
    scopes: Seq<SpecScope>,
    scope: nat,
    key: Seq<char>,
    value: SpecObject,
)
    requires
        scope < scopes.len(),
    ensures
        lookup(bind(scopes, scope, key, value), scope, key) == Some(value),
{
}

/// Binding leaves other names alone: from every scope, every other name
/// is seen as before.
pub proof fn law_bind_keeps_other_names(
    scopes: Seq<SpecScope>,
    scope: nat,
    key: Seq<char>,
    value: SpecObject,
    from: nat,
    other: Seq<char>,
)
    requires
        other != key,
    ensures
        lookup(bind(scopes, scope, key, value), from, other) == lookup(scopes, from, other),
    decreases from,
{
    if from < scopes.len() {
        let after = bind(scopes, scope, key, value);
        assert(after[from as int].outer == scopes[from as int].outer);
        assert(after[from as int].store.contains_key(other) == scopes[from as int].store.contains_key(
            other,
        ));
        if !scopes[from as int].store.contains_key(other) {
            match scopes[from as int].outer {
                Some(o) => {
                    if o < from {
                        law_bind_keeps_other_names(scopes, scope, key, value, o, other);
                    }
                },
                None => {},
            }
        }
    }
}

/// Binding writes the innermost scope only: what is seen from an older
/// scope, such as every scope around the one written, stays as it was.
pub proof fn law_bind_is_local(
    scopes: Seq<SpecScope>,
    scope: nat,
    key: Seq<char>,
    value: SpecObject,
    from: nat,
    name: Seq<char>,
)
    requires
        from < scope,
    ensures
        lookup(bind(scopes, scope, key, value), from, name) == lookup(scopes, from, name),
    decreases from,
{
    if from < scopes.len() {
        let after = bind(scopes, scope, key, value);
        assert(after[from as int] == scopes[from as int]);
        if !scopes[from as int].store.contains_key(name) {
            match scopes[from as int].outer {
                Some(o) => {
                    if o < from {
                        law_bind_is_local(scopes, scope, key, value, o, name);
                    }
                },
                None => {},
            }
        }
    }
}

/// Lookup walks outward: a name that a scope does not bind is seen from it
/// as it is seen from the scope around it.
pub proof fn law_lookup_walks_outward(
    scopes: Seq<SpecScope>,
    scope: nat,
    outer: nat,
    name: Seq<char>,
)
    requires
        scope < scopes.len(),
        scopes[scope as int].outer == Some(outer),
        outer < scope,
        !scopes[scope as int].store.contains_key(name),
    ensures
        lookup(scopes, scope, name) == lookup(scopes, outer, name),
{
}

} // verus!
