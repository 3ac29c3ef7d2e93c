//! The round trip: the proof that the scanner and the grammar read a
//! syntax tree out of what the printer wrote for it.

use vstd::prelude::*;
use crate::ast::{SpecExpression, SpecIdentifier, SpecStatement};
use crate::grammar::{all_digits, decimal_value, expression_list_tail, identifier_list_tail, identifier_of, infix_rule_for, kind_at, parse_block, parse_block_statements, parse_call_arguments, parse_expression, parse_expression_list, parse_function, parse_identifier_list, parse_if, parse_infix, parse_infix_loop, parse_parameters, parse_prefix, parse_program, parse_statement, parse_statements, token_at, token_precedence, InfixRule, ParseError, Precedence};
use crate::lexer::{digit, in_class, letter, tokens_from, CharClass};
use crate::object::{digit_char, digits};
use crate::printer::{assign, boolean_token, comma, first_token, infix_token, integer_token, keyword_else, keyword_fn, keyword_if, keyword_let, keyword_return, left_brace, left_parenthesis, name_token, prefix_token, print_block, print_expression, print_expressions, print_parameters, print_program, print_statement, print_statements, printable, printable_expressions, printable_names, printable_statement, printable_statements, program_text, retokened, retokened_block, retokened_expressions, retokened_parameters, retokened_statement, retokened_statements, right_brace, right_parenthesis, semicolon};
use crate::semantics::{infix_operator, prefix_operator};
use crate::token::{eof_token, keyword_kind, same_letter, spells, SpecToken, TokenType};
use crate::writer::{all_scannable, law_write_then_scan, lemma_all_scannable_add, lemma_digits_scannable, lemma_identifier_scannable, lemma_one_character_scannable, lemma_two_character_scannable, scannable};

verus! {

/// `part` stands in `toks` at `pos`.
pub open spec fn occurs(toks: Seq<SpecToken>, pos: nat, part: Seq<SpecToken>) -> bool {
    &&& pos + part.len() <= toks.len()
    &&& forall|i: int| 0 <= i < part.len() ==> toks[pos + i] == #[trigger] part[i]
}

/// Where two parts stand one behind the other, each stands there.
pub proof fn lemma_occurs_split(toks: Seq<SpecToken>, pos: nat, a: Seq<SpecToken>, b: Seq<SpecToken>)
    requires
        occurs(toks, pos, a + b),
    ensures
        occurs(toks, pos, a),
        occurs(toks, pos + a.len(), b),
{
    assert forall|i: int| 0 <= i < a.len() implies toks[pos + i] == #[trigger] a[i] by {
        assert((a + b)[i] == a[i]);
    }
    assert forall|i: int| 0 <= i < b.len() implies toks[pos + a.len() + i] == #[trigger] b[i] by {
        assert((a + b)[a.len() + i] == b[i]);
    }
}

/// A token that stands in `toks` is the token at its position.
pub proof fn lemma_occurs_one(toks: Seq<SpecToken>, pos: nat, t: SpecToken)
    requires
        occurs(toks, pos, seq![t]),
    ensures
        token_at(toks, pos) == t,
        pos < toks.len(),
{
    assert(seq![t][0] == t);
}

/// A token may end an expression that is written out in full: a closing
/// parenthesis, a comma or a semicolon.
pub open spec fn closes(kind: TokenType) -> bool {
    kind == TokenType::RPAREN || kind == TokenType::COMMA || kind == TokenType::SEMICOLON
}

/// The digits of a number are digits, and they write the number.
pub proof fn lemma_digits_value(n: nat)
    ensures
        digits(n).len() > 0,
        all_digits(digits(n)),
        decimal_value(digits(n)) == n,
    decreases n,
{
    if n < 10 {
        assert(digits(n) =~= seq![digit_char(n)]);
        assert(digits(n).drop_last() =~= Seq::<char>::empty());
        assert(decimal_value(digits(n).drop_last()) == 0);
        assert(digits(n).last() == digit_char(n));
    } else {
        lemma_digits_value(n / 10);
        let d = digits(n / 10);
        assert(digits(n) == d.push(digit_char(n % 10)));
        assert(digits(n).drop_last() =~= d);
        assert(digits(n).last() == digit_char(n % 10));
        assert forall|i: int| 0 <= i < digits(n).len() implies digit(#[trigger] digits(n)[i]) by {
            if i < d.len() {
                assert(digits(n)[i] == d[i]);
            }
        }
    }
}

/// What the printer writes for an expression begins with a token with
/// which an expression may begin.
pub proof fn lemma_first_kind(e: SpecExpression)
    requires
        printable(e),
    ensures
        print_expression(e).len() >= 1,
        ({
            let k = print_expression(e)[0].kind;
            k == TokenType::LPAREN || k == TokenType::IDENT || k == TokenType::INT || k
                == TokenType::TRUE || k == TokenType::FALSE || k == TokenType::IF || k
                == TokenType::FUNCTION
        }),
{
}

/// The part of a statement list that the printer writes first stands
/// first in what it writes for more of the list.
pub proof fn lemma_print_statements_prefix(statements: Seq<SpecStatement>, i: nat, n: nat)
    requires
        i <= n <= statements.len(),
    ensures
        print_statements(statements, i).len() <= print_statements(statements, n).len(),
        print_statements(statements, n).subrange(0, print_statements(statements, i).len() as int)
            == print_statements(statements, i),
    decreases n - i,
{
    if i < n {
        lemma_print_statements_prefix(statements, i, (n - 1) as nat);
        let a = print_statements(statements, (n - 1) as nat);
        let b = print_statement(statements[n - 1]);
        assert(print_statements(statements, n) == a + b);
        assert((a + b).subrange(0, print_statements(statements, i).len() as int)
            =~= a.subrange(0, print_statements(statements, i).len() as int));
    } else {
        assert(print_statements(statements, n).subrange(
            0,
            print_statements(statements, n).len() as int,
        ) =~= print_statements(statements, n));
    }
}

/// Where a statement list stands, each of its statements stands at its
/// place.
pub proof fn lemma_statement_occurs(
    toks: Seq<SpecToken>,
    start: nat,
    statements: Seq<SpecStatement>,
    i: nat,
)
    requires
        i < statements.len(),
        occurs(toks, start, print_statements(statements, statements.len())),
    ensures
        occurs(
            toks,
            start + print_statements(statements, i).len(),
            print_statement(statements[i as int]),
        ),
        print_statements(statements, i + 1) == print_statements(statements, i)
            + print_statement(statements[i as int]),
        start + print_statements(statements, i + 1).len() <= start + print_statements(
            statements,
            statements.len(),
        ).len(),
{
    let n = statements.len();
    let whole = print_statements(statements, n);
    let upto = print_statements(statements, i + 1);
    lemma_print_statements_prefix(statements, i + 1, n);
    assert(occurs(toks, start, upto)) by {
        assert forall|j: int| 0 <= j < upto.len() implies toks[start + j] == #[trigger] upto[j] by {
            assert(whole.subrange(0, upto.len() as int)[j] == whole[j]);
        }
    }
    lemma_occurs_split(
        toks,
        start,
        print_statements(statements, i),
        print_statement(statements[i as int]),
    );
}

/// The result of reading `value` up to `n` tokens past the first.
pub open spec fn read<T>(value: T, n: nat) -> Result<(T, nat), ParseError> {
    Ok((value, n))
}

/// How many tokens the printer writes for an expression.
pub open spec fn width(e: SpecExpression) -> nat {
    print_expression(e).len()
}

/// Where the printer's tokens for an expression stand, and a token
/// follows that ends the expression, the grammar reads the expression out
/// of them, whatever precedence it is asked to exceed.
#[verifier::spinoff_prover]
pub proof fn lemma_reads_expression(toks: Seq<SpecToken>, pos: nat, e: SpecExpression, precedence: int)
    requires
        printable(e),
        occurs(toks, pos, print_expression(e)),
        closes(kind_at(toks, pos + width(e))),
        precedence >= 1,
    ensures
        width(e) >= 1,
        parse_expression(toks, pos, precedence) == read(retokened(e), (width(e) - 1) as nat),
    decreases e, 2int,
{
    reveal(parse_expression);
    reveal(parse_prefix);
    reveal(parse_infix_loop);
    lemma_first_kind(e);
    lemma_reads_prefix(toks, pos, e);
    assert(parse_infix_loop(toks, pos + (width(e) - 1) as nat, retokened(e), precedence) == read(
        retokened(e),
        0,
    ));
}

/// Where the printer's tokens for an expression stand, the grammar reads
/// the expression out of them as what a token begins.
#[verifier::spinoff_prover]
pub proof fn lemma_reads_prefix(toks: Seq<SpecToken>, pos: nat, e: SpecExpression)
    requires
        printable(e),
        occurs(toks, pos, print_expression(e)),
        kind_at(toks, pos + width(e)) != TokenType::ELSE,
    ensures
        width(e) >= 1,
        parse_prefix(toks, pos) == read(retokened(e), (width(e) - 1) as nat),
    decreases e, 1int,
{
    lemma_first_kind(e);
    match e {
        SpecExpression::Ident(name) => {
            reveal(parse_prefix);
            lemma_occurs_one(toks, pos, name_token(name.value));
        },
        SpecExpression::Integer { value, .. } => {
            reveal(parse_prefix);
            lemma_occurs_one(toks, pos, integer_token(value));
            lemma_digits_value(value as nat);
        },
        SpecExpression::Boolean { value, .. } => {
            reveal(parse_prefix);
            lemma_occurs_one(toks, pos, boolean_token(value));
        },
        SpecExpression::Prefix { .. } => {
            lemma_reads_operation(toks, pos, e);
        },
        SpecExpression::Infix { .. } => {
            lemma_reads_binary(toks, pos, e);
        },
        SpecExpression::If { .. } => {
            lemma_reads_if(toks, pos, e);
        },
        SpecExpression::Function { .. } => {
            lemma_reads_function(toks, pos, e);
        },
        SpecExpression::Call { .. } => {
            lemma_reads_call(toks, pos, e);
        },
    }
}

#[verifier::spinoff_prover]
proof fn lemma_reads_operation(toks: Seq<SpecToken>, pos: nat, e: SpecExpression)
    requires
        printable(e),
        e is Prefix,
        occurs(toks, pos, print_expression(e)),
    ensures
        parse_prefix(toks, pos) == read(retokened(e), (width(e) - 1) as nat),
    decreases e, 0int,
{
    reveal(parse_prefix);
    reveal(parse_expression);
    reveal(parse_infix_loop);
    match e {
        SpecExpression::Prefix { operator, right, .. } => {
            let r = *right;
            let pr = print_expression(r);
            let op = prefix_token(operator);
            let head = seq![left_parenthesis(), op];
            let body = head + pr;
            assert(print_expression(e) == body + seq![right_parenthesis()]);
            lemma_occurs_split(toks, pos, body, seq![right_parenthesis()]);
            lemma_occurs_split(toks, pos, head, pr);
            lemma_occurs_one(toks, pos + body.len(), right_parenthesis());
            assert(head[0] == left_parenthesis());
            assert(head[1] == op);
            assert(token_at(toks, pos) == left_parenthesis());
            assert(token_at(toks, pos + 1) == op);
            lemma_reads_expression(toks, pos + 2, r, Precedence::PREFIX.rank());
            let inner = SpecExpression::Prefix {
                token: op,
                operator: operator,
                right: Box::new(retokened(r)),
            };
            assert(inner == retokened(e));
            assert(parse_prefix(toks, pos + 1) == read(inner, pr.len()));
            assert(parse_infix_loop(toks, pos + 1 + pr.len(), inner, 1) == read(inner, 0));
            assert(parse_expression(toks, pos + 1, 1) == read(inner, pr.len()));
        },
        _ => {},
    }
}

#[verifier::spinoff_prover]
proof fn lemma_reads_binary(toks: Seq<SpecToken>, pos: nat, e: SpecExpression)
    requires
        printable(e),
        e is Infix,
        occurs(toks, pos, print_expression(e)),
    ensures
        parse_prefix(toks, pos) == read(retokened(e), (width(e) - 1) as nat),
    decreases e, 0int,
{
    reveal(parse_prefix);
    reveal(parse_expression);
    reveal(parse_infix_loop);
    reveal(parse_infix);
    match e {
        SpecExpression::Infix { operator, left, right, .. } => {
            let l = *left;
            let r = *right;
            let pl = print_expression(l);
            let pr = print_expression(r);
            let op = infix_token(operator);
            let s1 = seq![left_parenthesis()] + pl;
            let s2 = s1 + seq![op];
            let s3 = s2 + pr;
            assert(print_expression(e) == s3 + seq![right_parenthesis()]);
            lemma_occurs_split(toks, pos, s3, seq![right_parenthesis()]);
            lemma_occurs_split(toks, pos, s2, pr);
            lemma_occurs_split(toks, pos, s1, seq![op]);
            lemma_occurs_split(toks, pos, seq![left_parenthesis()], pl);
            lemma_occurs_one(toks, pos, left_parenthesis());
            lemma_occurs_one(toks, pos + s1.len(), op);
            lemma_occurs_one(toks, pos + s3.len(), right_parenthesis());
            lemma_first_kind(l);
            lemma_first_kind(r);
            lemma_reads_prefix(toks, pos + 1, l);
            lemma_reads_expression(
                toks,
                pos + 2 + pl.len(),
                r,
                token_precedence(op.kind).rank(),
            );
            let whole = SpecExpression::Infix {
                token: op,
                operator: operator,
                left: Box::new(retokened(l)),
                right: Box::new(retokened(r)),
            };
            assert(whole == retokened(e));
            assert(infix_rule_for(op.kind) == Some(InfixRule::Binary));
            assert(parse_infix(toks, pos + 1 + pl.len(), retokened(l)) == read(whole, pr.len()));
            assert(parse_infix_loop(toks, pos + 1 + pl.len() + pr.len(), whole, 1) == read(
                whole,
                0,
            ));
            assert(parse_infix_loop(toks, pos + pl.len(), retokened(l), 1) == read(
                whole,
                pr.len() + 1,
            ));
            assert(parse_expression(toks, pos + 1, 1) == read(whole, pl.len() + pr.len()));
        },
        _ => {},
    }
}

#[verifier::spinoff_prover]
proof fn lemma_reads_if(toks: Seq<SpecToken>, pos: nat, e: SpecExpression)
    requires
        printable(e),
        e is If,
        occurs(toks, pos, print_expression(e)),
        kind_at(toks, pos + width(e)) != TokenType::ELSE,
    ensures
        parse_prefix(toks, pos) == read(retokened(e), (width(e) - 1) as nat),
    decreases e, 0int,
{
    reveal(parse_prefix);
    reveal(parse_if);
    reveal(parse_expression);
    reveal(parse_block);
    match e {
        SpecExpression::If { condition, consequence, alternative, .. } => {
            let c = *condition;
            let pc = print_expression(c);
            let pb = print_block(consequence.statements);
            let head = seq![keyword_if(), left_parenthesis()];
            let s1 = head + pc;
            let s2 = s1 + seq![right_parenthesis()];
            let s3 = s2 + pb;
            let tail = match alternative {
                Some(b) => seq![keyword_else()] + print_block(b.statements),
                None => Seq::<SpecToken>::empty(),
            };
            assert(print_expression(e) == s3 + tail);
            lemma_occurs_split(toks, pos, s3, tail);
            lemma_occurs_split(toks, pos, s2, pb);
            lemma_occurs_split(toks, pos, s1, seq![right_parenthesis()]);
            lemma_occurs_split(toks, pos, head, pc);
            lemma_occurs_one(toks, pos + s1.len(), right_parenthesis());
            assert(head[0] == keyword_if());
            assert(head[1] == left_parenthesis());
            assert(token_at(toks, pos) == keyword_if());
            assert(token_at(toks, pos + 1) == left_parenthesis());
            lemma_reads_expression(toks, pos + 2, c, Precedence::LOWEST.rank());
            lemma_block_shape(consequence.statements);
            assert(token_at(toks, pos + s2.len()) == left_brace()) by {
                assert(pb[0] == left_brace());
            }
            lemma_reads_block(toks, pos + pc.len() + 3, consequence.statements);
            match alternative {
                Some(b) => {
                    let pa = print_block(b.statements);
                    lemma_occurs_split(toks, pos + s3.len(), seq![keyword_else()], pa);
                    lemma_occurs_one(toks, pos + s3.len(), keyword_else());
                    lemma_block_shape(b.statements);
                    assert(token_at(toks, pos + s3.len() + 1) == left_brace()) by {
                        assert(pa[0] == left_brace());
                    }
                    lemma_reads_block(toks, pos + pc.len() + pb.len() + 4, b.statements);
                    assert(parse_if(toks, pos) == read(
                        retokened(e),
                        pc.len() + pb.len() + pa.len() + 3,
                    ));
                },
                None => {
                    assert(tail.len() == 0);
                    assert(parse_if(toks, pos) == read(retokened(e), pc.len() + pb.len() + 2));
                },
            }
        },
        _ => {},
    }
}

/// A block is written between braces.
pub proof fn lemma_block_shape(statements: Seq<SpecStatement>)
    ensures
        print_block(statements).len() == print_statements(statements, statements.len()).len() + 2,
        print_block(statements)[0] == left_brace(),
        print_block(statements).last() == right_brace(),
{
}

#[verifier::spinoff_prover]
proof fn lemma_reads_function(toks: Seq<SpecToken>, pos: nat, e: SpecExpression)
    requires
        printable(e),
        e is Function,
        occurs(toks, pos, print_expression(e)),
    ensures
        parse_prefix(toks, pos) == read(retokened(e), (width(e) - 1) as nat),
    decreases e, 0int,
{
    reveal(parse_prefix);
    reveal(parse_function);
    reveal(parse_parameters);
    reveal(parse_block);
    match e {
        SpecExpression::Function { parameters, body, .. } => {
            let pp = print_parameters(parameters, parameters.len());
            let pb = print_block(body.statements);
            let head = seq![keyword_fn(), left_parenthesis()];
            let s1 = head + pp;
            let s2 = s1 + seq![right_parenthesis()];
            assert(print_expression(e) == s2 + pb);
            lemma_occurs_split(toks, pos, s2, pb);
            lemma_occurs_split(toks, pos, s1, seq![right_parenthesis()]);
            lemma_occurs_split(toks, pos, head, pp);
            lemma_occurs_one(toks, pos + s1.len(), right_parenthesis());
            assert(head[0] == keyword_fn());
            assert(head[1] == left_parenthesis());
            assert(token_at(toks, pos) == keyword_fn());
            assert(token_at(toks, pos + 1) == left_parenthesis());
            lemma_reads_parameters(toks, pos + 1, parameters);
            lemma_block_shape(body.statements);
            assert(token_at(toks, pos + s2.len()) == left_brace()) by {
                assert(pb[0] == left_brace());
            }
            lemma_reads_block(toks, pos + pp.len() + 3, body.statements);
            assert(parse_function(toks, pos) == read(retokened(e), pp.len() + pb.len() + 2));
        },
        _ => {},
    }
}

/// The names of a parameter list stand at the even places of what the
/// printer writes for it, and commas at the odd places.
pub proof fn lemma_parameters_shape(parameters: Seq<SpecIdentifier>, n: nat)
    requires
        1 <= n <= parameters.len(),
    ensures
        print_parameters(parameters, n).len() == 2 * n - 1,
        forall|j: int|
            0 <= j < n ==> #[trigger] print_parameters(parameters, n)[2 * j] == name_token(
                parameters[j].value,
            ),
        forall|j: int|
            0 <= j < n - 1 ==> #[trigger] print_parameters(parameters, n)[2 * j + 1] == comma(),
    decreases n,
{
    if n > 1 {
        lemma_parameters_shape(parameters, (n - 1) as nat);
        let before = print_parameters(parameters, (n - 1) as nat);
        let all = print_parameters(parameters, n);
        assert(all == before + seq![comma(), name_token(parameters[n - 1].value)]);
        assert forall|j: int| 0 <= j < n implies #[trigger] all[2 * j] == name_token(
            parameters[j].value,
        ) by {
            if j < n - 1 {
                assert(all[2 * j] == before[2 * j]);
            }
        }
        assert forall|j: int| 0 <= j < n - 1 implies #[trigger] all[2 * j + 1] == comma() by {
            if j < n - 2 {
                assert(all[2 * j + 1] == before[2 * j + 1]);
            }
        }
    }
}

/// Where the printer's tokens for a parameter list stand behind an
/// opening parenthesis and before a closing one, the grammar reads the
/// names out of them.
#[verifier::spinoff_prover]
pub proof fn lemma_reads_parameters(toks: Seq<SpecToken>, pos: nat, parameters: Seq<SpecIdentifier>)
    requires
        occurs(toks, pos + 1, print_parameters(parameters, parameters.len())),
        token_at(toks, pos + 1 + print_parameters(parameters, parameters.len()).len())
            == right_parenthesis(),
    ensures
        parse_parameters(toks, pos) == read(
            retokened_parameters(parameters),
            print_parameters(parameters, parameters.len()).len() + 1,
        ),
{
    reveal(parse_parameters);
    reveal(parse_identifier_list);
    let n = parameters.len();
    if n == 0 {
        assert(retokened_parameters(parameters) =~= Seq::<SpecIdentifier>::empty());
    } else {
        lemma_parameters_shape(parameters, n);
        let pp = print_parameters(parameters, n);
        assert(toks[pos as int + 1] == pp[2 * 0int]);
        lemma_reads_names(toks, pos + 1, parameters, 0);
        assert(retokened_parameters(parameters).take(0) =~= Seq::<SpecIdentifier>::empty());
    }
}

/// The grammar reads the names of a parameter list from the `i`th on.
#[verifier::spinoff_prover]
pub proof fn lemma_reads_names(
    toks: Seq<SpecToken>,
    start: nat,
    parameters: Seq<SpecIdentifier>,
    i: nat,
)
    requires
        i < parameters.len(),
        occurs(toks, start, print_parameters(parameters, parameters.len())),
        token_at(toks, start + print_parameters(parameters, parameters.len()).len())
            == right_parenthesis(),
    ensures
        parse_identifier_list(toks, start + 2 * i, retokened_parameters(parameters).take(i as int))
            == read(
            retokened_parameters(parameters),
            (2 * (parameters.len() - i) - 1) as nat,
        ),
    decreases parameters.len() - i,
{
    reveal(parse_identifier_list);
    reveal(identifier_list_tail);
    let n = parameters.len();
    let pp = print_parameters(parameters, n);
    let all = retokened_parameters(parameters);
    lemma_parameters_shape(parameters, n);
    assert(toks[start as int + 2 * i as int] == pp[2 * i as int]);
    assert(token_at(toks, start + 2 * i) == name_token(parameters[i as int].value));
    let names = all.take(i as int).push(identifier_of(name_token(parameters[i as int].value)));
    assert(names =~= all.take(i as int + 1));
    if i + 1 < n {
        assert(toks[start as int + 2 * i as int + 1] == pp[2 * i as int + 1]);
        assert(token_at(toks, start + 2 * i + 1) == comma());
        lemma_reads_names(toks, start, parameters, i + 1);
        assert(parse_identifier_list(toks, start + 2 * i + 2, names) == read(
            all,
            (2 * (n - i - 1) - 1) as nat,
        ));
    } else {
        assert(all.take(n as int) =~= all);
        assert(token_at(toks, start + 2 * i + 1) == right_parenthesis());
    }
}

#[verifier::spinoff_prover]
proof fn lemma_reads_call(toks: Seq<SpecToken>, pos: nat, e: SpecExpression)
    requires
        printable(e),
        e is Call,
        occurs(toks, pos, print_expression(e)),
    ensures
        parse_prefix(toks, pos) == read(retokened(e), (width(e) - 1) as nat),
    decreases e, 0int,
{
    reveal(parse_prefix);
    reveal(parse_expression);
    reveal(parse_infix_loop);
    reveal(parse_infix);
    reveal(parse_call_arguments);
    reveal(parse_expression_list);
    match e {
        SpecExpression::Call { function, arguments, .. } => {
            let f = *function;
            let pf = print_expression(f);
            let pa = match arguments {
                Some(list) => print_expressions(list, list.len()),
                None => Seq::<SpecToken>::empty(),
            };
            let s1 = seq![left_parenthesis()] + pf;
            let s2 = s1 + seq![left_parenthesis()];
            let s3 = s2 + pa;
            let tail = seq![right_parenthesis(), right_parenthesis()];
            assert(print_expression(e) == s3 + tail);
            lemma_occurs_split(toks, pos, s3, tail);
            lemma_occurs_split(toks, pos, s2, pa);
            lemma_occurs_split(toks, pos, s1, seq![left_parenthesis()]);
            lemma_occurs_split(toks, pos, seq![left_parenthesis()], pf);
            lemma_occurs_one(toks, pos, left_parenthesis());
            lemma_occurs_one(toks, pos + s1.len(), left_parenthesis());
            assert(tail[0] == right_parenthesis());
            assert(tail[1] == right_parenthesis());
            assert(token_at(toks, pos + s3.len()) == right_parenthesis());
            assert(token_at(toks, pos + s3.len() + 1) == right_parenthesis());
            lemma_first_kind(f);
            lemma_reads_prefix(toks, pos + 1, f);
            let open = pos + 1 + pf.len();
            let whole = retokened(e);
            match arguments {
                Some(list) => {
                    assert(printable_expressions(list));
                    assert(printable(list[0]));
                    lemma_first_kind(list[0]);
                    lemma_argument_occurs(toks, open + 1, list, 0);
                    assert(print_expression(list[0])[0] == toks[open as int + 1]);
                    lemma_reads_expression_list(toks, open + 1, list, 0);
                    assert(retokened_expressions(list).take(0) =~= Seq::<SpecExpression>::empty());
                    assert(parse_call_arguments(toks, open) == read(
                        Some(retokened_expressions(list)),
                        pa.len() + 1,
                    ));
                },
                None => {
                    assert(pa.len() == 0);
                    assert(parse_call_arguments(toks, open) == read(
                        None::<Seq<SpecExpression>>,
                        1,
                    ));
                },
            }
            assert(infix_rule_for(TokenType::LPAREN) == Some(InfixRule::Call));
            assert(parse_infix(toks, open, retokened(f)) == read(whole, pa.len() + 1));
            assert(parse_infix_loop(toks, open + pa.len() + 1, whole, 1) == read(whole, 0));
            assert(parse_infix_loop(toks, pos + pf.len(), retokened(f), 1) == read(
                whole,
                pa.len() + 2,
            ));
            assert(parse_expression(toks, pos + 1, 1) == read(whole, pf.len() + pa.len() + 1));
        },
        _ => {},
    }
}

/// Where the `i`th expression of a list that the printer wrote begins,
/// counted from the start of the list.
pub open spec fn argument_start(list: Seq<SpecExpression>, i: nat) -> nat {
    if i == 0 {
        0
    } else {
        print_expressions(list, i).len() + 1
    }
}

/// Where an expression list stands, each of its expressions stands at its
/// place, with a comma behind it unless it is the last.
pub proof fn lemma_argument_occurs(
    toks: Seq<SpecToken>,
    start: nat,
    list: Seq<SpecExpression>,
    i: nat,
)
    requires
        i < list.len(),
        occurs(toks, start, print_expressions(list, list.len())),
    ensures
        occurs(toks, start + argument_start(list, i), print_expression(list[i as int])),
        print_expressions(list, i + 1).len() == argument_start(list, i) + width(list[i as int]),
        i + 1 < list.len() ==> token_at(toks, start + print_expressions(list, i + 1).len())
            == comma(),
        start + print_expressions(list, i + 1).len() <= start + print_expressions(
            list,
            list.len(),
        ).len(),
{
    let n = list.len();
    let whole = print_expressions(list, n);
    lemma_print_expressions_prefix(list, i + 1, n);
    let upto = print_expressions(list, i + 1);
    assert(occurs(toks, start, upto)) by {
        assert forall|j: int| 0 <= j < upto.len() implies toks[start + j] == #[trigger] upto[j] by {
            assert(whole.subrange(0, upto.len() as int)[j] == whole[j]);
        }
    }
    if i == 0 {
        assert(upto == print_expression(list[0]));
    } else {
        let before = print_expressions(list, i) + seq![comma()];
        assert(upto == before + print_expression(list[i as int]));
        lemma_occurs_split(toks, start, before, print_expression(list[i as int]));
    }
    if i + 1 < n {
        lemma_print_expressions_prefix(list, i + 2, n);
        let next = print_expressions(list, i + 2);
        assert(next == upto + seq![comma()] + print_expression(list[i as int + 1]));
        assert(next[upto.len() as int] == comma());
        assert(whole.subrange(0, next.len() as int)[upto.len() as int] == whole[upto.len() as int]);
        assert(toks[start as int + upto.len()] == whole[upto.len() as int]);
    }
}

/// The part of an expression list that the printer writes first stands
/// first in what it writes for more of the list.
pub proof fn lemma_print_expressions_prefix(list: Seq<SpecExpression>, i: nat, n: nat)
    requires
        i <= n <= list.len(),
    ensures
        print_expressions(list, i).len() <= print_expressions(list, n).len(),
        print_expressions(list, n).subrange(0, print_expressions(list, i).len() as int)
            == print_expressions(list, i),
    decreases n - i,
{
    let short = print_expressions(list, i);
    if i < n {
        lemma_print_expressions_prefix(list, i, (n - 1) as nat);
        let a = print_expressions(list, (n - 1) as nat);
        if n == 1 {
            assert(short.len() == 0);
            assert(print_expressions(list, n).subrange(0, 0) =~= short);
        } else {
            let b = seq![comma()] + print_expression(list[n - 1]);
            assert(print_expressions(list, n) =~= a + b);
            assert((a + b).subrange(0, short.len() as int) =~= a.subrange(0, short.len() as int));
        }
    } else {
        assert(print_expressions(list, n).subrange(0, short.len() as int) =~= short);
    }
}

/// The grammar reads the expressions of an argument list from the `i`th
/// on.
#[verifier::spinoff_prover]
pub proof fn lemma_reads_expression_list(
    toks: Seq<SpecToken>,
    start: nat,
    list: Seq<SpecExpression>,
    i: nat,
)
    requires
        i < list.len(),
        printable_expressions(list),
        occurs(toks, start, print_expressions(list, list.len())),
        token_at(toks, start + print_expressions(list, list.len()).len()) == right_parenthesis(),
    ensures
        parse_expression_list(
            toks,
            start + argument_start(list, i),
            retokened_expressions(list).take(i as int),
        ) == read(
            retokened_expressions(list),
            (print_expressions(list, list.len()).len() - argument_start(list, i)) as nat,
        ),
    decreases list, list.len() - i,
{
    reveal(parse_expression_list);
    reveal(expression_list_tail);
    reveal(parse_expression);
    let n = list.len();
    let all = retokened_expressions(list);
    let e = list[i as int];
    let at = start + argument_start(list, i);
    lemma_argument_occurs(toks, start, list, i);
    lemma_first_kind(e);
    let end = start + print_expressions(list, i + 1).len();
    assert(end == at + width(e));
    if i + 1 < n {
        assert(token_at(toks, end) == comma());
    } else {
        assert(token_at(toks, end) == right_parenthesis());
    }
    lemma_reads_expression(toks, at, e, Precedence::LOWEST.rank());
    let acc = all.take(i as int).push(retokened(e));
    assert(acc =~= all.take(i as int + 1));
    if i + 1 < n {
        lemma_reads_expression_list(toks, start, list, i + 1);
        assert(argument_start(list, i + 1) == print_expressions(list, i + 1).len() + 1);
        assert(parse_expression_list(toks, end + 1, acc) == read(
            all,
            (print_expressions(list, n).len() - argument_start(list, i + 1)) as nat,
        ));
        assert(expression_list_tail(toks, (end - 1) as nat, acc) == read(
            all,
            (print_expressions(list, n).len() - argument_start(list, i + 1) + 2) as nat,
        ));
    } else {
        assert(all.take(n as int) =~= all);
        assert(expression_list_tail(toks, (end - 1) as nat, acc) == read(all, 1));
    }
}

/// Where the printer's tokens for a block stand, the grammar reads the
/// block out of them.
#[verifier::spinoff_prover]
pub proof fn lemma_reads_block(toks: Seq<SpecToken>, pos: nat, statements: Seq<SpecStatement>)
    requires
        printable_statements(statements),
        occurs(toks, pos, print_block(statements)),
    ensures
        parse_block(toks, pos) == read(
            retokened_block(statements),
            (print_block(statements).len() - 1) as nat,
        ),
    decreases statements, statements.len() + 2,
{
    reveal(parse_block);
    reveal(parse_block_statements);
    let ps = print_statements(statements, statements.len());
    let s1 = seq![left_brace()] + ps;
    assert(print_block(statements) == s1 + seq![right_brace()]);
    lemma_occurs_split(toks, pos, s1, seq![right_brace()]);
    lemma_occurs_split(toks, pos, seq![left_brace()], ps);
    lemma_occurs_one(toks, pos, left_brace());
    lemma_occurs_one(toks, pos + s1.len(), right_brace());
    lemma_reads_block_statements(toks, pos + 1, statements, 0);
    assert(retokened_statements(statements).take(0) =~= Seq::<SpecStatement>::empty());
    assert(print_statements(statements, 0).len() == 0);
}

/// The grammar reads the statements of a block from the `i`th on, up to
/// the closing brace.
#[verifier::spinoff_prover]
pub proof fn lemma_reads_block_statements(
    toks: Seq<SpecToken>,
    start: nat,
    statements: Seq<SpecStatement>,
    i: nat,
)
    requires
        i <= statements.len(),
        printable_statements(statements),
        occurs(toks, start, print_statements(statements, statements.len())),
        token_at(toks, start + print_statements(statements, statements.len()).len())
            == right_brace(),
    ensures
        print_statements(statements, i).len() <= print_statements(
            statements,
            statements.len(),
        ).len(),
        parse_block_statements(
            toks,
            start + print_statements(statements, i).len(),
            retokened_statements(statements).take(i as int),
        ) == read(
            retokened_statements(statements),
            (print_statements(statements, statements.len()).len() - print_statements(
                statements,
                i,
            ).len()) as nat,
        ),
    decreases statements, statements.len() - i,
{
    reveal(parse_block_statements);
    reveal(parse_statement);
    let n = statements.len();
    let all = retokened_statements(statements);
    let at = start + print_statements(statements, i).len();
    lemma_print_statements_prefix(statements, i, n);
    if i == n {
        assert(all.take(n as int) =~= all);
    } else {
        let s = statements[i as int];
        lemma_statement_occurs(toks, start, statements, i);
        lemma_statement_shape(s);
        assert(toks[at as int] == print_statement(s)[0]);
        lemma_reads_statement(toks, at, s);
        let acc = all.take(i as int).push(retokened_statement(s));
        assert(acc =~= all.take(i as int + 1));
        lemma_reads_block_statements(toks, start, statements, i + 1);
    }
}

/// What the printer writes for a statement begins with `let`, with
/// `return` or with the first token of an expression, and ends with a
/// semicolon.
pub proof fn lemma_statement_shape(s: SpecStatement)
    requires
        printable_statement(s),
    ensures
        print_statement(s).len() >= 2,
        ({
            let k = print_statement(s)[0].kind;
            k != TokenType::RBRACE && k != TokenType::EOF && (s is Expression ==> k
                != TokenType::LET && k != TokenType::RETURN && print_statement(s)[0]
                == first_token(s->Expression_expression))
        }),
{
    match s {
        SpecStatement::Let { value, .. } => {
            lemma_first_kind(value);
        },
        SpecStatement::Return { value, .. } => {
            lemma_first_kind(value);
        },
        SpecStatement::Expression { expression, .. } => {
            lemma_first_kind(expression);
            assert(print_statement(s)[0] == print_expression(expression)[0]);
        },
        SpecStatement::Block(_) => {},
    }
}

/// Where the printer's tokens for a statement stand, the grammar reads
/// the statement out of them.
#[verifier::spinoff_prover]
pub proof fn lemma_reads_statement(toks: Seq<SpecToken>, pos: nat, s: SpecStatement)
    requires
        printable_statement(s),
        occurs(toks, pos, print_statement(s)),
    ensures
        print_statement(s).len() >= 1,
        parse_statement(toks, pos) == read(
            retokened_statement(s),
            (print_statement(s).len() - 1) as nat,
        ),
    decreases s, 0int,
{
    reveal(parse_statement);
    reveal(parse_expression);
    lemma_statement_shape(s);
    match s {
        SpecStatement::Let { name, value, .. } => {
            let pv = print_expression(value);
            let head = seq![keyword_let(), name_token(name.value), assign()];
            let s1 = head + pv;
            assert(print_statement(s) == s1 + seq![semicolon()]);
            lemma_occurs_split(toks, pos, s1, seq![semicolon()]);
            lemma_occurs_split(toks, pos, head, pv);
            lemma_occurs_one(toks, pos + s1.len(), semicolon());
            assert(head[0] == keyword_let());
            assert(head[1] == name_token(name.value));
            assert(head[2] == assign());
            assert(token_at(toks, pos) == keyword_let());
            assert(token_at(toks, pos + 1) == name_token(name.value));
            assert(token_at(toks, pos + 2) == assign());
            lemma_reads_expression(toks, pos + 3, value, Precedence::LOWEST.rank());
        },
        SpecStatement::Return { value, .. } => {
            let pv = print_expression(value);
            let s1 = seq![keyword_return()] + pv;
            assert(print_statement(s) == s1 + seq![semicolon()]);
            lemma_occurs_split(toks, pos, s1, seq![semicolon()]);
            lemma_occurs_split(toks, pos, seq![keyword_return()], pv);
            lemma_occurs_one(toks, pos + s1.len(), semicolon());
            lemma_occurs_one(toks, pos, keyword_return());
            lemma_reads_expression(toks, pos + 1, value, Precedence::LOWEST.rank());
        },
        SpecStatement::Expression { expression, .. } => {
            let pe = print_expression(expression);
            assert(print_statement(s) == pe + seq![semicolon()]);
            lemma_occurs_split(toks, pos, pe, seq![semicolon()]);
            lemma_occurs_one(toks, pos + pe.len(), semicolon());
            lemma_first_kind(expression);
            assert(toks[pos as int] == pe[0]);
            lemma_reads_expression(toks, pos, expression, Precedence::LOWEST.rank());
        },
        SpecStatement::Block(_) => {},
    }
}

/// The grammar reads the statements of a program from the `i`th on.
#[verifier::spinoff_prover]
pub proof fn lemma_reads_statements(toks: Seq<SpecToken>, statements: Seq<SpecStatement>, i: nat)
    requires
        i <= statements.len(),
        printable_statements(statements),
        toks == print_program(statements),
    ensures
        parse_statements(
            toks,
            print_statements(statements, i).len(),
            retokened_statements(statements).take(i as int),
        ) == Ok::<Seq<SpecStatement>, ParseError>(retokened_statements(statements)),
    decreases statements.len() - i,
{
    reveal(parse_statements);
    reveal(parse_statement);
    let n = statements.len();
    let all = retokened_statements(statements);
    let whole = print_statements(statements, n);
    let at = print_statements(statements, i).len();
    lemma_print_statements_prefix(statements, i, n);
    assert(occurs(toks, 0, whole)) by {
        assert forall|j: int| 0 <= j < whole.len() implies toks[0 + j] == #[trigger] whole[j] by {
            assert((whole + seq![eof_token()])[j] == whole[j]);
        }
    }
    assert(toks[whole.len() as int] == eof_token());
    if i == n {
        assert(all.take(n as int) =~= all);
    } else {
        let s = statements[i as int];
        lemma_statement_occurs(toks, 0, statements, i);
        lemma_statement_shape(s);
        assert(toks[at as int] == print_statement(s)[0]);
        lemma_reads_statement(toks, at, s);
        let acc = all.take(i as int).push(retokened_statement(s));
        assert(acc =~= all.take(i as int + 1));
        lemma_reads_statements(toks, statements, i + 1);
    }
}

/// Round trip. The grammar reads out of what the printer wrote for a
/// program the program itself, with the tokens that the printer wrote in
/// its nodes: a tree of the same structure.
pub proof fn law_print_then_parse(statements: Seq<SpecStatement>)
    requires
        printable_statements(statements),
        statements.len() > 0,
    ensures
        parse_program(print_program(statements), 0) == Ok::<Seq<SpecStatement>, ParseError>(
            retokened_statements(statements),
        ),
{
    reveal(parse_program);
    lemma_reads_statements(print_program(statements), statements, 0);
    assert(retokened_statements(statements).take(0) =~= Seq::<SpecStatement>::empty());
    assert(print_statements(statements, 0).len() == 0);
}

/// The scanner reads back each token of fixed spelling that the printer
/// writes.
pub proof fn lemma_fixed_tokens_scannable()
    ensures
        scannable(left_parenthesis()),
        scannable(right_parenthesis()),
        scannable(left_brace()),
        scannable(right_brace()),
        scannable(comma()),
        scannable(semicolon()),
        scannable(assign()),
        scannable(keyword_let()),
        scannable(keyword_return()),
        scannable(keyword_if()),
        scannable(keyword_else()),
        scannable(keyword_fn()),
        scannable(boolean_token(true)),
        scannable(boolean_token(false)),
{
    reveal_strlit("(");
    reveal_strlit(")");
    reveal_strlit("{");
    reveal_strlit("}");
    reveal_strlit(",");
    reveal_strlit(";");
    reveal_strlit("=");
    lemma_one_character_scannable("("@, TokenType::LPAREN);
    lemma_one_character_scannable(")"@, TokenType::RPAREN);
    lemma_one_character_scannable("{"@, TokenType::LBRACE);
    lemma_one_character_scannable("}"@, TokenType::RBRACE);
    lemma_one_character_scannable(","@, TokenType::COMMA);
    lemma_one_character_scannable(";"@, TokenType::SEMICOLON);
    lemma_one_character_scannable("="@, TokenType::ASSIGN);
    lemma_keywords();
    lemma_word_scannable("let"@, TokenType::LET);
    lemma_word_scannable("return"@, TokenType::RETURN);
    lemma_word_scannable("if"@, TokenType::IF);
    lemma_word_scannable("else"@, TokenType::ELSE);
    lemma_word_scannable("fn"@, TokenType::FUNCTION);
    lemma_word_scannable("true"@, TokenType::TRUE);
    lemma_word_scannable("false"@, TokenType::FALSE);
}

/// The scanner reads a word of letters back as what the word is: a
/// keyword or an identifier.
pub proof fn lemma_word_scannable(word: Seq<char>, kind: TokenType)
    requires
        word.len() > 0,
        forall|i: int| 0 <= i < word.len() ==> letter(#[trigger] word[i]),
        keyword_kind(word) == kind,
    ensures
        scannable(SpecToken { kind: kind, literal: word }),
{
    let s = word.push(' ');
    assert(s[0] == word[0]);
    assert(letter(word[0]));
    assert forall|i: int| 1 <= i < 1 + (word.len() - 1) implies in_class(
        #[trigger] s[i],
        CharClass::Word,
    ) by {
        assert(s[i] == word[i]);
        assert(letter(word[i]));
    }
    crate::writer::lemma_run_until(s, 1, (word.len() - 1) as nat, CharClass::Word);
    assert(s.subrange(0, word.len() as int) =~= word);
    crate::token::lemma_keyword_kind_is_word(word);
}

/// The seven keywords are words of letters, and each is the keyword that
/// it spells.
pub proof fn lemma_keywords()
    ensures
        keyword_kind("fn"@) == TokenType::FUNCTION,
        keyword_kind("let"@) == TokenType::LET,
        keyword_kind("true"@) == TokenType::TRUE,
        keyword_kind("false"@) == TokenType::FALSE,
        keyword_kind("if"@) == TokenType::IF,
        keyword_kind("else"@) == TokenType::ELSE,
        keyword_kind("return"@) == TokenType::RETURN,
        forall|i: int| 0 <= i < "fn"@.len() ==> letter(#[trigger] "fn"@[i]),
        forall|i: int| 0 <= i < "let"@.len() ==> letter(#[trigger] "let"@[i]),
        forall|i: int| 0 <= i < "true"@.len() ==> letter(#[trigger] "true"@[i]),
        forall|i: int| 0 <= i < "false"@.len() ==> letter(#[trigger] "false"@[i]),
        forall|i: int| 0 <= i < "if"@.len() ==> letter(#[trigger] "if"@[i]),
        forall|i: int| 0 <= i < "else"@.len() ==> letter(#[trigger] "else"@[i]),
        forall|i: int| 0 <= i < "return"@.len() ==> letter(#[trigger] "return"@[i]),
        "fn"@.len() == 2,
        "let"@.len() == 3,
        "true"@.len() == 4,
        "false"@.len() == 5,
        "if"@.len() == 2,
        "else"@.len() == 4,
        "return"@.len() == 6,
{
    reveal_strlit("fn");
    reveal_strlit("let");
    reveal_strlit("true");
    reveal_strlit("false");
    reveal_strlit("if");
    reveal_strlit("else");
    reveal_strlit("return");
    assert(!same_letter("if"@[0], "fn"@[0]));
    assert(!same_letter("else"@[0], "true"@[0]));
    assert(!spells("if"@, "fn"@));
    assert(!spells("else"@, "true"@));
}

/// The scanner reads back the token that the printer writes for an
/// operator.
pub proof fn lemma_operator_scannable(operator: Seq<char>)
    ensures
        prefix_operator(operator) is Some ==> scannable(prefix_token(operator)),
        infix_operator(operator) is Some ==> scannable(infix_token(operator)),
{
    if prefix_operator(operator) is Some {
        lemma_one_character_scannable(operator, prefix_token(operator).kind);
    }
    if infix_operator(operator) is Some {
        if operator.len() == 1 {
            lemma_one_character_scannable(operator, infix_token(operator).kind);
        } else {
            lemma_two_character_scannable(operator, infix_token(operator).kind);
        }
    }
}

/// One token that can be read back is a list of tokens that can.
pub proof fn lemma_one_scannable(t: SpecToken)
    requires
        scannable(t),
    ensures
        all_scannable(seq![t]),
{
}

/// The scanner reads back every token that the printer writes for an
/// expression.
pub proof fn lemma_expression_scannable(e: SpecExpression)
    requires
        printable(e),
    ensures
        all_scannable(print_expression(e)),
    decreases e, 0int,
{
    lemma_fixed_tokens_scannable();
    let lp = seq![left_parenthesis()];
    let rp = seq![right_parenthesis()];
    lemma_one_scannable(left_parenthesis());
    lemma_one_scannable(right_parenthesis());
    match e {
        SpecExpression::Ident(name) => {
            lemma_identifier_scannable(name.value);
        },
        SpecExpression::Integer { value, .. } => {
            lemma_digits_value(value as nat);
            lemma_digits_scannable(digits(value as nat));
        },
        SpecExpression::Boolean { value, .. } => {},
        SpecExpression::Prefix { operator, right, .. } => {
            lemma_operator_scannable(operator);
            lemma_expression_scannable(*right);
            let head = seq![left_parenthesis(), prefix_token(operator)];
            assert(all_scannable(head));
            lemma_all_scannable_add(head, print_expression(*right));
            lemma_all_scannable_add(head + print_expression(*right), rp);
        },
        SpecExpression::Infix { operator, left, right, .. } => {
            lemma_operator_scannable(operator);
            lemma_expression_scannable(*left);
            lemma_expression_scannable(*right);
            let op = seq![infix_token(operator)];
            lemma_one_scannable(infix_token(operator));
            lemma_all_scannable_add(lp, print_expression(*left));
            lemma_all_scannable_add(lp + print_expression(*left), op);
            lemma_all_scannable_add(lp + print_expression(*left) + op, print_expression(*right));
            lemma_all_scannable_add(
                lp + print_expression(*left) + op + print_expression(*right),
                rp,
            );
        },
        SpecExpression::If { condition, consequence, alternative, .. } => {
            lemma_expression_scannable(*condition);
            lemma_block_scannable(consequence.statements);
            let head = seq![keyword_if(), left_parenthesis()];
            assert(all_scannable(head));
            let s1 = head + print_expression(*condition);
            lemma_all_scannable_add(head, print_expression(*condition));
            lemma_all_scannable_add(s1, rp);
            lemma_all_scannable_add(s1 + rp, print_block(consequence.statements));
            match alternative {
                Some(b) => {
                    lemma_block_scannable(b.statements);
                    lemma_one_scannable(keyword_else());
                    lemma_all_scannable_add(seq![keyword_else()], print_block(b.statements));
                    lemma_all_scannable_add(
                        s1 + rp + print_block(consequence.statements),
                        seq![keyword_else()] + print_block(b.statements),
                    );
                },
                None => {
                    lemma_all_scannable_add(
                        s1 + rp + print_block(consequence.statements),
                        Seq::<SpecToken>::empty(),
                    );
                },
            }
        },
        SpecExpression::Function { parameters, body, .. } => {
            lemma_block_scannable(body.statements);
            lemma_parameters_scannable(parameters, parameters.len());
            let head = seq![keyword_fn(), left_parenthesis()];
            assert(all_scannable(head));
            let pp = print_parameters(parameters, parameters.len());
            lemma_all_scannable_add(head, pp);
            lemma_all_scannable_add(head + pp, rp);
            lemma_all_scannable_add(head + pp + rp, print_block(body.statements));
        },
        SpecExpression::Call { function, arguments, .. } => {
            lemma_expression_scannable(*function);
            let pa = match arguments {
                Some(list) => print_expressions(list, list.len()),
                None => Seq::<SpecToken>::empty(),
            };
            match arguments {
                Some(list) => {
                    lemma_expressions_scannable(list, list.len());
                },
                None => {},
            }
            let tail = seq![right_parenthesis(), right_parenthesis()];
            assert(all_scannable(tail));
            let s1 = lp + print_expression(*function);
            lemma_all_scannable_add(lp, print_expression(*function));
            lemma_all_scannable_add(s1, lp);
            lemma_all_scannable_add(s1 + lp, pa);
            lemma_all_scannable_add(s1 + lp + pa, tail);
        },
    }
}

/// The scanner reads back every token that the printer writes for a
/// parameter list.
pub proof fn lemma_parameters_scannable(parameters: Seq<SpecIdentifier>, n: nat)
    requires
        printable_names(parameters),
        n <= parameters.len(),
    ensures
        all_scannable(print_parameters(parameters, n)),
    decreases n,
{
    lemma_fixed_tokens_scannable();
    if n == 1 {
        lemma_identifier_scannable(parameters[0].value);
    } else if n > 1 {
        lemma_parameters_scannable(parameters, (n - 1) as nat);
        lemma_identifier_scannable(parameters[n - 1].value);
        let more = seq![comma(), name_token(parameters[n - 1].value)];
        assert(all_scannable(more));
        lemma_all_scannable_add(print_parameters(parameters, (n - 1) as nat), more);
    }
}

/// The scanner reads back every token that the printer writes for a list
/// of expressions.
pub proof fn lemma_expressions_scannable(list: Seq<SpecExpression>, n: nat)
    requires
        printable_expressions(list),
        n <= list.len(),
    ensures
        all_scannable(print_expressions(list, n)),
    decreases list, n,
{
    lemma_fixed_tokens_scannable();
    if n == 1 {
        lemma_expression_scannable(list[0]);
    } else if n > 1 {
        lemma_expressions_scannable(list, (n - 1) as nat);
        lemma_expression_scannable(list[n - 1]);
        lemma_one_scannable(comma());
        lemma_all_scannable_add(print_expressions(list, (n - 1) as nat), seq![comma()]);
        lemma_all_scannable_add(
            print_expressions(list, (n - 1) as nat) + seq![comma()],
            print_expression(list[n - 1]),
        );
    }
}

/// The scanner reads back every token that the printer writes for a
/// block.
pub proof fn lemma_block_scannable(statements: Seq<SpecStatement>)
    requires
        printable_statements(statements),
    ensures
        all_scannable(print_block(statements)),
    decreases statements, statements.len() + 1,
{
    lemma_fixed_tokens_scannable();
    lemma_statements_scannable(statements, statements.len());
    lemma_one_scannable(left_brace());
    lemma_one_scannable(right_brace());
    let ps = print_statements(statements, statements.len());
    lemma_all_scannable_add(seq![left_brace()], ps);
    lemma_all_scannable_add(seq![left_brace()] + ps, seq![right_brace()]);
}

/// The scanner reads back every token that the printer writes for a list
/// of statements.
pub proof fn lemma_statements_scannable(statements: Seq<SpecStatement>, n: nat)
    requires
        printable_statements(statements),
        n <= statements.len(),
    ensures
        all_scannable(print_statements(statements, n)),
    decreases statements, n,
{
    if n > 0 {
        lemma_statements_scannable(statements, (n - 1) as nat);
        lemma_statement_scannable(statements[n - 1]);
        lemma_all_scannable_add(
            print_statements(statements, (n - 1) as nat),
            print_statement(statements[n - 1]),
        );
    }
}

/// The scanner reads back every token that the printer writes for a
/// statement.
pub proof fn lemma_statement_scannable(s: SpecStatement)
    requires
        printable_statement(s),
    ensures
        all_scannable(print_statement(s)),
    decreases s, 0int,
{
    lemma_fixed_tokens_scannable();
    lemma_one_scannable(semicolon());
    match s {
        SpecStatement::Let { name, value, .. } => {
            lemma_identifier_scannable(name.value);
            lemma_expression_scannable(value);
            let head = seq![keyword_let(), name_token(name.value), assign()];
            assert(all_scannable(head));
            lemma_all_scannable_add(head, print_expression(value));
            lemma_all_scannable_add(head + print_expression(value), seq![semicolon()]);
        },
        SpecStatement::Return { value, .. } => {
            lemma_expression_scannable(value);
            lemma_one_scannable(keyword_return());
            lemma_all_scannable_add(seq![keyword_return()], print_expression(value));
            lemma_all_scannable_add(
                seq![keyword_return()] + print_expression(value),
                seq![semicolon()],
            );
        },
        SpecStatement::Expression { expression, .. } => {
            lemma_expression_scannable(expression);
            lemma_all_scannable_add(print_expression(expression), seq![semicolon()]);
        },
        SpecStatement::Block(_) => {},
    }
}

/// Round trip through text. Out of the text that the printer writes for a
/// program, the scanner and the grammar read the program again, with the
/// tokens that the printer wrote in its nodes: a tree of the same
/// structure.
pub proof fn law_print_scan_parse(statements: Seq<SpecStatement>)
    requires
        printable_statements(statements),
        statements.len() > 0,
    ensures
        tokens_from(program_text(statements), 0) == print_program(statements),
        parse_program(tokens_from(program_text(statements), 0), 0) == Ok::<
            Seq<SpecStatement>,
            ParseError,
        >(retokened_statements(statements)),
{
    let toks = print_statements(statements, statements.len());
    lemma_statements_scannable(statements, statements.len());
    law_write_then_scan(toks);
    assert(toks.push(eof_token()) =~= toks + seq![eof_token()]);
    assert(tokens_from(program_text(statements), 0) == print_program(statements));
    law_print_then_parse(statements);
}

} // verus!
