use monkey::evaluator::{
    apply_infix_operator, call_result, decode_infix_operator, decode_prefix_operator, eval,
    eval_bang_operator_expr, eval_bool_infix_expr, eval_integer_infix_expr,
    eval_minus_operator_expr, hanlde_block_result, is_truthy,
};
use monkey::grammar::ParseError;
use monkey::lexer::Lexer;
use monkey::object::{Block, Bool, Environment, Integer, MonkeyObject, Null, ReturnValue};
use monkey::parser::Parser;
use monkey::repl::{evaluate_program, MonkeyError, DEFAULT_CALL_DEPTH};
use monkey::semantics::{EvalError, InfixOperator, PrefixOperator};
use monkey::token::TokenType;

fn integer(v: i64) -> MonkeyObject {
    MonkeyObject::INTEGER(Integer { value: v })
}

fn boolean(v: bool) -> MonkeyObject {
    MonkeyObject::BOOLEAN(Bool { value: v })
}

fn null() -> MonkeyObject {
    MonkeyObject::NULL(Null {})
}

fn block(values: Vec<MonkeyObject>) -> MonkeyObject {
    MonkeyObject::BLOCK(Block { statements: values })
}

fn returning(v: MonkeyObject) -> MonkeyObject {
    MonkeyObject::RETURN(ReturnValue { value: Box::new(v) })
}

fn run(text: &str) -> Result<Vec<MonkeyObject>, MonkeyError> {
    let mut env = Environment::new();
    evaluate_program(text.to_string(), &mut env, 0, DEFAULT_CALL_DEPTH)
}

/// The value of the last statement of a text.
fn last(text: &str) -> MonkeyObject {
    run(text).unwrap().pop().unwrap()
}

fn fails(text: &str) -> EvalError {
    match run(text).unwrap_err() {
        MonkeyError::Runtime(e) => e,
        other => panic!("not a runtime error: {:?}", other),
    }
}

#[test]
fn integer_and_boolean_literals() {
    assert_eq!(run("5").unwrap(), vec![integer(5)]);
    assert_eq!(run("true; false").unwrap(), vec![boolean(true), boolean(false)]);
}

#[test]
fn one_value_for_each_statement() {
    assert_eq!(run("1; 2; let x = 3; x").unwrap(), vec![integer(1), integer(2), null(), integer(3)]);
}

#[test]
fn division_truncates() {
    assert_eq!(last("7 / 2"), integer(3));
    assert_eq!(last("-7 / 2"), integer(-3));
    assert_eq!(last("7 / -2"), integer(-3));
    assert_eq!(last("-7 / -2"), integer(3));
    assert_eq!(last("6 / 3"), integer(2));
    assert_eq!(last("0 / 5"), integer(0));
    assert_eq!(last("1 / 2"), integer(0));
    assert_eq!(last("-1 / 2"), integer(0));
}

#[test]
fn division_by_zero_is_an_error() {
    assert_eq!(fails("5 / 0"), EvalError::DivisionByZero);
    assert_eq!(fails("0 / 0"), EvalError::DivisionByZero);
    assert_eq!(fails("-5 / (1 - 1)"), EvalError::DivisionByZero);
}

#[test]
fn division_of_least_integer_by_minus_one_wraps() {
    assert_eq!(last("(-9223372036854775807 - 1) / -1"), integer(i64::MIN));
}

#[test]
fn exponentiation() {
    assert_eq!(last("2 ^ 10"), integer(1024));
    assert_eq!(last("3 ^ 4"), integer(81));
    assert_eq!(last("7 ^ 0"), integer(1));
    assert_eq!(last("0 ^ 0"), integer(1));
    assert_eq!(last("0 ^ 5"), integer(0));
    assert_eq!(last("-2 ^ 3"), integer(-8));
    assert_eq!(last("-2 ^ 2"), integer(4));
    assert_eq!(last("1 ^ 9223372036854775807"), integer(1));
    assert_eq!(last("-1 ^ 9223372036854775807"), integer(-1));
    assert_eq!(last("2 ^ 62"), integer(4611686018427387904));
    assert_eq!(last("10 ^ 18"), integer(1000000000000000000));
}

#[test]
fn negative_exponent_is_an_error() {
    assert_eq!(fails("2 ^ -1"), EvalError::NegativeExponent);
    assert_eq!(fails("0 ^ (0 - 5)"), EvalError::NegativeExponent);
}

#[test]
fn exponentiation_wraps_around() {
    assert_eq!(last("2 ^ 63"), integer(i64::MIN));
    assert_eq!(last("2 ^ 64"), integer(0));
    assert_eq!(last("3 ^ 41"), integer(3i64.wrapping_pow(41)));
    assert_eq!(last("-7 ^ 35"), integer((-7i64).wrapping_pow(35)));
}

#[test]
fn arithmetic_wraps_around() {
    assert_eq!(last("9223372036854775807 + 1"), integer(i64::MIN));
    assert_eq!(last("-9223372036854775807 - 2"), integer(i64::MAX));
    assert_eq!(last("9223372036854775807 * 2"), integer(-2));
    assert_eq!(last("-(-9223372036854775807 - 1)"), integer(i64::MIN));
}

#[test]
fn truthiness() {
    assert_eq!(last("!true"), boolean(false));
    assert_eq!(last("!false"), boolean(true));
    assert_eq!(last("!5"), boolean(false));
    assert_eq!(last("!0"), boolean(false));
    assert_eq!(last("!!true"), boolean(true));
    assert_eq!(last("!!5"), boolean(true));
}

#[test]
fn absent_value_is_false() {
    assert_eq!(last("!fn() { }()"), boolean(true));
    assert_eq!(last("let f = fn() { let a = 1; }; !f()"), boolean(true));
    assert_eq!(last("if (fn() { }()) { 1 } else { 2 }"), block(vec![integer(2)]));
}

#[test]
fn function_values_and_blocks_are_true() {
    assert_eq!(last("!fn(x) { x }"), boolean(false));
    assert_eq!(last("!if (false) { 1 }"), boolean(false));
}

#[test]
fn precedence() {
    assert_eq!(last("1 + 2 * 3"), integer(7));
    assert_eq!(last("(1 + 2) * 3"), integer(9));
    assert_eq!(last("2 ^ 3 + 1"), integer(9));
    assert_eq!(last("2 * 3 ^ 2"), integer(18));
    assert_eq!(last("10 - 4 - 3"), integer(3));
    assert_eq!(last("-2 + 5"), integer(3));
}

#[test]
fn comparisons_of_integers() {
    assert_eq!(last("1 < 2"), boolean(true));
    assert_eq!(last("2 < 1"), boolean(false));
    assert_eq!(last("2 > 1"), boolean(true));
    assert_eq!(last("2 <= 2"), boolean(true));
    assert_eq!(last("3 <= 2"), boolean(false));
    assert_eq!(last("2 >= 3"), boolean(false));
    assert_eq!(last("2 >= 2"), boolean(true));
    assert_eq!(last("2 == 2"), boolean(true));
    assert_eq!(last("2 != 2"), boolean(false));
    assert_eq!(last("1 + 1 == 2"), boolean(true));
}

#[test]
fn comparisons_of_booleans() {
    assert_eq!(last("true == true"), boolean(true));
    assert_eq!(last("true == false"), boolean(false));
    assert_eq!(last("true != false"), boolean(true));
    assert_eq!(last("(1 < 2) == true"), boolean(true));
}

#[test]
fn other_operators_on_booleans_are_type_errors() {
    assert_eq!(fails("true + false"), EvalError::TypeMismatch);
    assert_eq!(fails("true < false"), EvalError::TypeMismatch);
    assert_eq!(fails("true ^ true"), EvalError::TypeMismatch);
}

#[test]
fn mixed_operands_are_type_errors() {
    assert_eq!(fails("1 + true"), EvalError::TypeMismatch);
    assert_eq!(fails("true == 1"), EvalError::TypeMismatch);
    assert_eq!(fails("fn() { } == fn() { }"), EvalError::TypeMismatch);
    assert_eq!(fails("1 + fn() { }()"), EvalError::TypeMismatch);
}

#[test]
fn negation_is_for_integers() {
    assert_eq!(last("-5"), integer(-5));
    assert_eq!(last("--5"), integer(5));
    assert_eq!(fails("-true"), EvalError::TypeMismatch);
    assert_eq!(fails("-fn() { }"), EvalError::TypeMismatch);
}

#[test]
fn calling_what_is_no_function_is_a_type_error() {
    assert_eq!(fails("5()"), EvalError::TypeMismatch);
    assert_eq!(fails("let x = true; x(1)"), EvalError::TypeMismatch);
}

#[test]
fn unbound_identifier() {
    assert_eq!(fails("foobar"), EvalError::UnboundIdentifier);
    assert_eq!(fails("let x = 1; y"), EvalError::UnboundIdentifier);
    assert_eq!(fails("fn(x) { x }(1); x"), EvalError::UnboundIdentifier);
}

#[test]
fn arity_mismatch() {
    assert_eq!(fails("fn(x) { x }()"), EvalError::ArityMismatch);
    assert_eq!(fails("fn(x) { x }(1, 2)"), EvalError::ArityMismatch);
    assert_eq!(fails("fn() { 1 }(1)"), EvalError::ArityMismatch);
}

#[test]
fn let_binds_in_the_current_scope() {
    assert_eq!(run("let x = 5; x + 1").unwrap(), vec![null(), integer(6)]);
    assert_eq!(last("let x = 5; let x = x * 2; x"), integer(10));
    assert_eq!(last("let x = 1; let f = fn() { let x = 2; x }; f() + x"), integer(3));
}

#[test]
fn blocks_share_the_scope_around_them() {
    assert_eq!(last("let x = 1; if (true) { let x = 2; } x"), integer(2));
    assert_eq!(last("if (true) { let y = 7; } y"), integer(7));
}

#[test]
fn closures() {
    assert_eq!(
        run("let adder = fn(x) { fn(y) { x + y } }; let add5 = adder(5); add5(3);").unwrap(),
        vec![null(), null(), integer(8)]
    );
    assert_eq!(
        last("let adder = fn(x) { fn(y) { x + y } }; let a = adder(1); let b = adder(10); a(1) + b(1)"),
        integer(13)
    );
}

#[test]
fn closures_see_the_scope_not_a_copy() {
    assert_eq!(last("let x = 1; let f = fn() { x }; let x = 2; f()"), integer(2));
    assert_eq!(last("let f = fn() { g() }; let g = fn() { 42 }; f()"), integer(42));
}

#[test]
fn parameters_hide_outer_names() {
    assert_eq!(last("let x = 1; let f = fn(x) { x * 10 }; f(5) + x"), integer(51));
}

#[test]
fn arguments_are_evaluated_in_the_callers_scope() {
    assert_eq!(last("let x = 3; let f = fn(a, b) { a - b }; f(x + 1, x)"), integer(1));
    assert_eq!(last("let f = fn(a, b) { a - b }; f(10, 4)"), integer(6));
}

#[test]
fn early_return() {
    let text = "let f = fn(x) { if (x > 0) { return 1; } return -1; };";
    assert_eq!(last(&format!("{} f(5)", text)), integer(1));
    assert_eq!(last(&format!("{} f(-5)", text)), integer(-1));
    assert_eq!(last("fn(x) { if (x > 0) { return 1; } return -1; }(5)"), integer(1));
    assert_eq!(last("fn(x) { if (x > 0) { return 1; } return -1; }(-5)"), integer(-1));
}

#[test]
fn return_skips_the_rest_of_the_body() {
    assert_eq!(last("fn() { return 1; 2; 3 }()"), integer(1));
    assert_eq!(last("fn() { if (true) { if (true) { return 10; } } return 1; }()"), integer(10));
    assert_eq!(last("fn() { 1; 2; 3 }()"), integer(3));
}

#[test]
fn return_at_top_level_ends_the_program() {
    assert_eq!(run("1; return 2; 3").unwrap(), vec![returning(integer(2))]);
    assert_eq!(run("1; if (true) { return 2; } 3").unwrap(), vec![returning(integer(2))]);
}

#[test]
fn return_ends_the_inner_call_only() {
    assert_eq!(last("let f = fn() { return 1; }; let g = fn() { f(); 2 }; g()"), integer(2));
}

#[test]
fn if_gives_the_values_of_its_block() {
    assert_eq!(last("if (true) { 10 }"), block(vec![integer(10)]));
    assert_eq!(last("if (1 < 2) { 1; 2 } else { 3 }"), block(vec![integer(1), integer(2)]));
    assert_eq!(last("if (1 > 2) { 1 } else { 3 }"), block(vec![integer(3)]));
    assert_eq!(last("if (5) { 1 } else { 3 }"), block(vec![integer(1)]));
}

#[test]
fn if_without_else_gives_an_empty_block() {
    assert_eq!(last("if (false) { 10 }"), block(vec![]));
    assert_eq!(last("if (1 > 2) { 10 }"), block(vec![]));
}

#[test]
fn empty_blocks_and_bodies() {
    assert_eq!(last("if (true) { }"), block(vec![]));
    assert_eq!(last("fn() { }()"), null());
}

#[test]
fn recursion() {
    let fact = "let fact = fn(n) { if (n < 2) { return 1; } return n * fact(n - 1); };";
    assert_eq!(last(&format!("{} fact(10)", fact)), integer(3628800));
    let fib = "let fib = fn(n) { if (n < 2) { return n; } return fib(n - 1) + fib(n - 2); };";
    assert_eq!(last(&format!("{} fib(15)", fib)), integer(610));
}

#[test]
fn endless_recursion_is_an_error() {
    assert_eq!(fails("let f = fn(x) { f(x + 1) }; f(0)"), EvalError::CallDepthExceeded);
}

#[test]
fn call_depth_is_counted() {
    let text = "let f = fn(n) { if (n == 0) { return 0; } return 1 + f(n - 1); }; f(3)";
    let mut env = Environment::new();
    assert_eq!(
        evaluate_program(text.to_string(), &mut env, 0, 4).unwrap().pop().unwrap(),
        integer(3)
    );
    let mut env = Environment::new();
    assert_eq!(
        evaluate_program(text.to_string(), &mut env, 0, 3).unwrap_err(),
        MonkeyError::Runtime(EvalError::CallDepthExceeded)
    );
    let mut env = Environment::new();
    assert_eq!(
        evaluate_program("fn() { 1 }()".to_string(), &mut env, 0, 0).unwrap_err(),
        MonkeyError::Runtime(EvalError::CallDepthExceeded)
    );
    let mut env = Environment::new();
    assert_eq!(evaluate_program("1 + 1".to_string(), &mut env, 0, 0).unwrap(), vec![integer(2)]);
}

#[test]
fn higher_order_functions() {
    assert_eq!(
        last("let twice = fn(f, x) { f(f(x)) }; twice(fn(n) { n * 3 }, 2)"),
        integer(18)
    );
    assert_eq!(last("fn(x) { fn(y) { fn(z) { x * 100 + y * 10 + z } } }(1)(2)(3)"), integer(123));
}

#[test]
fn parse_errors_leave_the_environment_alone() {
    let mut env = Environment::new();
    evaluate_program("let x = 1;".to_string(), &mut env, 0, 10).unwrap();
    let before = env.scopes.len();
    assert_eq!(
        evaluate_program("let y = ;".to_string(), &mut env, 0, 10).unwrap_err(),
        MonkeyError::Parse(ParseError::NoPrefixRule(TokenType::SEMICOLON))
    );
    assert_eq!(env.scopes.len(), before);
    assert_eq!(evaluate_program("x".to_string(), &mut env, 0, 10).unwrap(), vec![integer(1)]);
}

#[test]
fn bindings_last_between_inputs() {
    let mut env = Environment::new();
    assert_eq!(evaluate_program("let x = 5;".to_string(), &mut env, 0, 10).unwrap(), vec![null()]);
    assert_eq!(
        evaluate_program("let f = fn(y) { x + y };".to_string(), &mut env, 0, 10).unwrap(),
        vec![null()]
    );
    assert_eq!(evaluate_program("f(2)".to_string(), &mut env, 0, 10).unwrap(), vec![integer(7)]);
    assert_eq!(
        evaluate_program("zzz".to_string(), &mut env, 0, 10).unwrap_err(),
        MonkeyError::Runtime(EvalError::UnboundIdentifier)
    );
    assert_eq!(evaluate_program("x".to_string(), &mut env, 0, 10).unwrap(), vec![integer(5)]);
}

#[test]
fn bindings_made_before_an_error_stay() {
    let mut env = Environment::new();
    assert_eq!(
        evaluate_program("let a = 1; let b = 2; a / 0; let c = 3;".to_string(), &mut env, 0, 10)
            .unwrap_err(),
        MonkeyError::Runtime(EvalError::DivisionByZero)
    );
    assert_eq!(evaluate_program("a + b".to_string(), &mut env, 0, 10).unwrap(), vec![integer(3)]);
    assert_eq!(
        evaluate_program("c".to_string(), &mut env, 0, 10).unwrap_err(),
        MonkeyError::Runtime(EvalError::UnboundIdentifier)
    );
}

#[test]
fn eval_runs_a_program_that_was_parsed() {
    let lexer = Lexer::new("let x = 2; x ^ 5".to_string());
    let mut parser = Parser::new(lexer);
    let program = parser.parse_programm().unwrap();
    let mut env = Environment::new();
    assert_eq!(eval(&program.statements, &mut env, 0, 10).unwrap(), vec![null(), integer(32)]);
}

#[test]
fn bang_operator_on_values() {
    assert_eq!(eval_bang_operator_expr(boolean(true)), boolean(false));
    assert_eq!(eval_bang_operator_expr(boolean(false)), boolean(true));
    assert_eq!(eval_bang_operator_expr(null()), boolean(true));
    assert_eq!(eval_bang_operator_expr(integer(0)), boolean(false));
    assert_eq!(eval_bang_operator_expr(integer(5)), boolean(false));
    assert_eq!(eval_bang_operator_expr(block(vec![])), boolean(false));
    assert_eq!(eval_bang_operator_expr(returning(boolean(false))), boolean(false));
}

#[test]
fn truthy_values() {
    assert!(is_truthy(&boolean(true)));
    assert!(!is_truthy(&boolean(false)));
    assert!(!is_truthy(&null()));
    assert!(is_truthy(&integer(0)));
    assert!(is_truthy(&block(vec![])));
}

#[test]
fn minus_operator_on_values() {
    assert_eq!(eval_minus_operator_expr(integer(5)), Ok(integer(-5)));
    assert_eq!(eval_minus_operator_expr(integer(-5)), Ok(integer(5)));
    assert_eq!(eval_minus_operator_expr(integer(0)), Ok(integer(0)));
    assert_eq!(eval_minus_operator_expr(integer(i64::MIN)), Ok(integer(i64::MIN)));
    assert_eq!(eval_minus_operator_expr(boolean(true)), Err(EvalError::TypeMismatch));
    assert_eq!(eval_minus_operator_expr(null()), Err(EvalError::TypeMismatch));
}

#[test]
fn integer_infix_on_values() {
    let l = Integer { value: 7 };
    let r = Integer { value: 2 };
    assert_eq!(eval_integer_infix_expr("+", &l, &r), Ok(integer(9)));
    assert_eq!(eval_integer_infix_expr("-", &l, &r), Ok(integer(5)));
    assert_eq!(eval_integer_infix_expr("*", &l, &r), Ok(integer(14)));
    assert_eq!(eval_integer_infix_expr("/", &l, &r), Ok(integer(3)));
    assert_eq!(eval_integer_infix_expr("^", &l, &r), Ok(integer(49)));
    assert_eq!(eval_integer_infix_expr("<", &l, &r), Ok(boolean(false)));
    assert_eq!(eval_integer_infix_expr(">", &l, &r), Ok(boolean(true)));
    assert_eq!(eval_integer_infix_expr("<=", &l, &r), Ok(boolean(false)));
    assert_eq!(eval_integer_infix_expr(">=", &l, &r), Ok(boolean(true)));
    assert_eq!(eval_integer_infix_expr("==", &l, &r), Ok(boolean(false)));
    assert_eq!(eval_integer_infix_expr("!=", &l, &r), Ok(boolean(true)));
    assert_eq!(eval_integer_infix_expr("%", &l, &r), Err(EvalError::UnknownOperator));
    assert_eq!(eval_integer_infix_expr("", &l, &r), Err(EvalError::UnknownOperator));
    assert_eq!(eval_integer_infix_expr("+=", &l, &r), Err(EvalError::UnknownOperator));
    assert_eq!(eval_integer_infix_expr("===", &l, &r), Err(EvalError::UnknownOperator));
    let zero = Integer { value: 0 };
    assert_eq!(eval_integer_infix_expr("/", &l, &zero), Err(EvalError::DivisionByZero));
    let minus = Integer { value: -1 };
    assert_eq!(eval_integer_infix_expr("^", &l, &minus), Err(EvalError::NegativeExponent));
}

#[test]
fn bool_infix_on_values() {
    let t = Bool { value: true };
    let f = Bool { value: false };
    assert_eq!(eval_bool_infix_expr("==", &t, &f), Ok(boolean(false)));
    assert_eq!(eval_bool_infix_expr("==", &t, &t), Ok(boolean(true)));
    assert_eq!(eval_bool_infix_expr("!=", &t, &f), Ok(boolean(true)));
    assert_eq!(eval_bool_infix_expr("+", &t, &f), Err(EvalError::TypeMismatch));
    assert_eq!(eval_bool_infix_expr("<", &t, &f), Err(EvalError::TypeMismatch));
    assert_eq!(eval_bool_infix_expr("&&", &t, &f), Err(EvalError::UnknownOperator));
}

#[test]
fn infix_on_values() {
    assert_eq!(apply_infix_operator("+", integer(1), integer(2)), Ok(integer(3)));
    assert_eq!(apply_infix_operator("==", boolean(true), boolean(true)), Ok(boolean(true)));
    assert_eq!(apply_infix_operator("+", integer(1), boolean(true)), Err(EvalError::TypeMismatch));
    assert_eq!(apply_infix_operator("==", null(), null()), Err(EvalError::TypeMismatch));
    assert_eq!(apply_infix_operator("?", null(), integer(1)), Err(EvalError::TypeMismatch));
}

#[test]
fn operators_are_decoded() {
    assert_eq!(decode_prefix_operator("!"), Some(PrefixOperator::Bang));
    assert_eq!(decode_prefix_operator("-"), Some(PrefixOperator::Minus));
    assert_eq!(decode_prefix_operator("+"), None);
    assert_eq!(decode_prefix_operator("!!"), None);
    assert_eq!(decode_prefix_operator(""), None);
    assert_eq!(decode_infix_operator("^"), Some(InfixOperator::Power));
    assert_eq!(decode_infix_operator("<="), Some(InfixOperator::LtEq));
    assert_eq!(decode_infix_operator("=="), Some(InfixOperator::Eq));
    assert_eq!(decode_infix_operator("="), None);
    assert_eq!(decode_infix_operator("!"), None);
    assert_eq!(decode_infix_operator("=<"), None);
}

#[test]
fn block_results() {
    assert_eq!(hanlde_block_result(vec![]), block(vec![]));
    assert_eq!(hanlde_block_result(vec![integer(1), integer(2)]), block(vec![integer(1), integer(2)]));
    assert_eq!(hanlde_block_result(vec![returning(integer(1))]), returning(integer(1)));
    assert_eq!(hanlde_block_result(vec![integer(1), returning(integer(2))]), block(vec![
        integer(1),
        returning(integer(2))
    ]));
}

#[test]
fn call_results() {
    assert_eq!(call_result(vec![]), null());
    assert_eq!(call_result(vec![integer(1), integer(2)]), integer(2));
    assert_eq!(call_result(vec![returning(integer(1))]), integer(1));
    assert_eq!(call_result(vec![returning(returning(integer(1)))]), returning(integer(1)));
    assert_eq!(call_result(vec![null()]), null());
}

#[test]
fn more_depth_changes_nothing() {
    let texts = [
        "let f = fn(n) { if (n == 0) { return 0; } return 1 + f(n - 1); }; f(5)",
        "let adder = fn(x) { fn(y) { x + y } }; adder(1)(2)",
        "1 / 0",
        "fn(x) { x }(1, 2)",
    ];
    for text in texts {
        let mut env = Environment::new();
        let shallow = evaluate_program(text.to_string(), &mut env, 0, 10);
        let mut env = Environment::new();
        let deep = evaluate_program(text.to_string(), &mut env, 0, 100);
        assert_eq!(shallow, deep);
    }
}

#[test]
fn values_are_shown() {
    assert_eq!(integer(0).inspect(), "0");
    assert_eq!(integer(7).inspect(), "7");
    assert_eq!(integer(-42).inspect(), "-42");
    assert_eq!(integer(1000).inspect(), "1000");
    assert_eq!(integer(i64::MAX).inspect(), "9223372036854775807");
    assert_eq!(integer(i64::MIN).inspect(), "-9223372036854775808");
    assert_eq!(boolean(true).inspect(), "true");
    assert_eq!(boolean(false).inspect(), "false");
    assert_eq!(null().inspect(), "Null");
    assert_eq!(block(vec![]).inspect(), "Number of Statements in block:0");
    assert_eq!(
        block(vec![integer(1), integer(2), integer(3)]).inspect(),
        "Number of Statements in block:3"
    );
    assert_eq!(returning(integer(1)).inspect(), "return");
    assert_eq!(last("fn(x) { x }").inspect(), "fn");
}

#[test]
fn function_values_keep_their_scope() {
    match last("fn(x, y) { x }") {
        MonkeyObject::FUNCTION(f) => {
            assert_eq!(f.env, 0);
            assert_eq!(f.params.len(), 2);
            assert_eq!(f.params[0].value, "x");
            assert_eq!(f.body.statements.len(), 1);
        }
        other => panic!("not a function: {:?}", other),
    }
    match last("fn(a) { fn(b) { a } }(1)") {
        MonkeyObject::FUNCTION(f) => assert_eq!(f.env, 1),
        other => panic!("not a function: {:?}", other),
    }
}

#[test]
fn each_call_gets_a_scope_of_its_own() {
    let mut env = Environment::new();
    evaluate_program("let f = fn(x) { x }; f(1); f(2); f(3)".to_string(), &mut env, 0, 10)
        .unwrap();
    assert_eq!(env.scopes.len(), 4);
    assert_eq!(env.scopes[1].outer, Some(0));
    assert_eq!(env.scopes[3].outer, Some(0));
}

#[test]
fn closures_keep_what_they_captured() {
    assert_eq!(
        last("let adder = fn(x) { fn(y) { x + y } }; let add5 = adder(5); let x = 100; add5(3)"),
        integer(8)
    );
    assert_eq!(
        last("let adder = fn(x) { fn(y) { x + y } }; let add5 = adder(5); let add7 = adder(7); add5(3)"),
        integer(8)
    );
}
