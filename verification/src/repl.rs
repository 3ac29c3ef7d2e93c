//! From source text to values: the scanner, the parser and the evaluator
//! in a row. This is what a file runner and an interactive shell both call;
//! the shell keeps one `Environment` for the whole session, so that what one
//! input binds the next one sees.

use vstd::prelude::*;

use crate::evaluator::eval;
use crate::grammar::{parse_program, ParseError};
use crate::lexer::{lemma_scan_token, remaining, tokens_from, Lexer};
use crate::object::{Environment, MonkeyObject, SpecScope};
use crate::parser::Parser;
use crate::semantics::{eval_program, EvalError};
use crate::token::{SpecToken, Token, TokenType};

verus! {

/// How deeply calls may nest where the caller sets no bound of its own.
pub const DEFAULT_CALL_DEPTH: usize = 200;

/// Why a text could not be run.
#[derive(Debug, PartialEq, Eq, Clone, Copy, Structural)]
pub enum MonkeyError {
    /// The text is not a program.
    Parse(ParseError),
    /// The program failed while it ran.
    Runtime(EvalError),
}

/// The values of a list of tokens.
pub open spec fn tokens_view(v: Seq<Token>) -> Seq<SpecToken> {
    Seq::new(v.len(), |i: int| v[i]@)
}

/// Scans what is left of a text: all its tokens up to and with the
/// end-of-input token.
pub fn create_tokens(monkey_lexer: &mut Lexer) -> (r: Vec<Token>)
    requires
        old(monkey_lexer).wf(),
    ensures
        final(monkey_lexer).wf(),
        final(monkey_lexer).input == old(monkey_lexer).input,
        final(monkey_lexer).position == final(monkey_lexer).length,
        tokens_view(r@) == old(monkey_lexer).pending(),
{
    let ghost text = monkey_lexer.input@;
    let ghost start = monkey_lexer.position as nat;
    let mut tokens: Vec<Token> = Vec::new();
    loop
        invariant_except_break
            tokens_view(tokens@) + tokens_from(text, monkey_lexer.position as nat) == tokens_from(
                text,
                start,
            ),
        invariant
            monkey_lexer.wf(),
            monkey_lexer.input == old(monkey_lexer).input,
            text == monkey_lexer.input@,
            start == old(monkey_lexer).position,
        ensures
            monkey_lexer.wf(),
            monkey_lexer.input == old(monkey_lexer).input,
            monkey_lexer.position == monkey_lexer.length,
            tokens_view(tokens@) == tokens_from(text, start),
        decreases remaining(text.len(), monkey_lexer.position as nat),
    {
        let ghost before = monkey_lexer.position as nat;
        let ghost sofar = tokens_view(tokens@);
        proof {
            lemma_scan_token(text, before);
        }
        let tok = monkey_lexer.next_token();
        let done = tok.tokentype == TokenType::EOF;
        tokens.push(tok);
        proof {
            assert(tokens_view(tokens@) =~= sofar + seq![tok@]);
            if done {
                assert(tokens_from(text, before) =~= seq![tok@]);
                assert(sofar + seq![tok@] == sofar + tokens_from(text, before));
            } else {
                assert(tokens_from(text, before) =~= seq![tok@] + tokens_from(
                    text,
                    monkey_lexer.position as nat,
                ));
                assert((sofar + seq![tok@]) + tokens_from(text, monkey_lexer.position as nat)
                    =~= sofar + tokens_from(text, before));
            }
        }
        if done {
            break ;
        }
    }
    tokens
}

/// What running a text gives: the error of the parser, or what the
/// evaluator makes of the program that the parser read.
pub open spec fn run(text: Seq<char>, scopes: Seq<SpecScope>, scope: nat, depth: nat) -> (
    Result<Seq<crate::object::SpecObject>, MonkeyError>,
    Seq<SpecScope>,
) {
    match parse_program(tokens_from(text, 0), 0) {
        Err(e) => (Err(MonkeyError::Parse(e)), scopes),
        Ok(statements) => {
            let (r, after) = eval_program(statements, scopes, scope, depth);
            match r {
                Ok(values) => (Ok(values), after),
                Err(e) => (Err(MonkeyError::Runtime(e)), after),
            }
        },
    }
}

/// Runs a text in `scope`, with calls nested at most `depth` deep: scans
/// it, parses it and evaluates the program. A text that is no program
/// leaves the scopes as they are.
pub fn evaluate_program(input: String, env: &mut Environment, scope: usize, depth: usize) -> (r:
    Result<Vec<MonkeyObject>, MonkeyError>)
    ensures
        final(env)@ == run(input@, old(env)@, scope as nat, depth as nat).1,
        match run(input@, old(env)@, scope as nat, depth as nat).0 {
            Ok(values) => r is Ok && crate::object::objects_view(r->Ok_0@) == values,
            Err(e) => r is Err && r->Err_0 == e,
        },
{
    let monkey_lexer = Lexer::new(input);
    let mut monkey_parser = Parser::new(monkey_lexer);
    let program = match monkey_parser.parse_programm() {
        Ok(p) => p,
        Err(e) => {
            return Err(MonkeyError::Parse(e));
        },
    };
    match eval(&program.statements, env, scope, depth) {
        Ok(values) => Ok(values),
        Err(e) => Err(MonkeyError::Runtime(e)),
    }
}

} // verus!
