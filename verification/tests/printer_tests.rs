use monkey::ast::{MonkeyExpression, Programm, Statement};
use monkey::grammar::ParseError;
use monkey::lexer::Lexer;
use monkey::object::Environment;
use monkey::parser::Parser;
use monkey::printer::is_identifier;
use monkey::repl::evaluate_program;
use monkey::token::{
    BlockStatement, CallExpression, ExpressionStatement, Identifier, InfixExpression,
    IntegerLiteral, PrefixExpression, Token, TokenType,
};

fn parse(text: &str) -> Result<Programm, ParseError> {
    let lexer = Lexer::new(text.to_string());
    let mut parser = Parser::new(lexer);
    parser.parse_programm()
}

fn printed(text: &str) -> String {
    parse(text).unwrap().print_program().unwrap()
}

fn token(kind: TokenType, literal: &str) -> Token {
    Token::new(kind, literal.to_string())
}

fn number(value: i64) -> MonkeyExpression {
    MonkeyExpression::INTEGERLITERAL(IntegerLiteral::new(token(TokenType::INT, "?"), value))
}

fn statement(expression: MonkeyExpression) -> Statement {
    Statement::EXPRESSION(ExpressionStatement::new(token(TokenType::ILLEGAL, ""), expression))
}

#[test]
fn every_operation_is_written_in_parentheses() {
    assert_eq!(printed("1 + 2 * 3"), "( 1 + ( 2 * 3 ) ) ; ");
    assert_eq!(printed("(1 + 2) * 3"), "( ( 1 + 2 ) * 3 ) ; ");
    assert_eq!(printed("-a ^ 2"), "( ( - a ) ^ 2 ) ; ");
    assert_eq!(printed("!true == false"), "( ( ! true ) == false ) ; ");
    assert_eq!(printed("a <= b != c >= d"), "( ( a <= b ) != ( c >= d ) ) ; ");
}

#[test]
fn names_and_literals_are_written_as_they_are() {
    assert_eq!(printed("x"), "x ; ");
    assert_eq!(printed("42"), "42 ; ");
    assert_eq!(printed("007"), "7 ; ");
    assert_eq!(printed("true; false"), "true ; false ; ");
}

#[test]
fn statements_end_with_a_semicolon() {
    assert_eq!(printed("let x = 5; return x; x"), "let x = 5 ; return x ; x ; ");
}

#[test]
fn calls_are_written_in_parentheses() {
    assert_eq!(printed("f()"), "( f ( ) ) ; ");
    assert_eq!(printed("f(x)"), "( f ( x ) ) ; ");
    assert_eq!(printed("f(x, 1 + 2)(y)"), "( ( f ( x , ( 1 + 2 ) ) ) ( y ) ) ; ");
}

#[test]
fn conditionals_and_functions() {
    assert_eq!(printed("if (x) { y }"), "if ( x ) { y ; } ; ");
    assert_eq!(printed("if (x) { y } else { z; 1 }"), "if ( x ) { y ; } else { z ; 1 ; } ; ");
    assert_eq!(printed("fn() { }"), "fn ( ) { } ; ");
    assert_eq!(printed("fn(a, b) { return a + b; }"), "fn ( a , b ) { return ( a + b ) ; } ; ");
}

#[test]
fn keywords_are_written_in_lower_case() {
    assert_eq!(printed("LET x = TRUE; RETURN x;"), "let x = true ; return x ; ");
}

#[test]
fn printed_text_reads_as_the_same_tree() {
    let texts = [
        "1 + 2 * 3",
        "(1 + 2) * 3",
        "2 ^ 3 + 1",
        "-a * !b",
        "let adder = fn(x) { fn(y) { x + y } }; let add5 = adder(5); add5(3);",
        "fn(x) { if (x > 0) { return 1; } return -1; }(5)",
        "if (a < b) { a } else { if (c) { d } }",
        "f(); g(1)(2, 3); h(fn() { 1 })",
        "let f = fn(n) { if (n < 2) { return 1; } return n * f(n - 1); }; f(10)",
    ];
    for text in texts {
        let first = parse(text).unwrap();
        let written = first.print_program().unwrap();
        let second = parse(&written).unwrap();
        assert_eq!(second.print_program().unwrap(), written);
        let third = parse(&second.print_program().unwrap()).unwrap();
        assert_eq!(third, second);
    }
}

#[test]
fn printed_text_evaluates_to_the_same() {
    let texts = [
        "1 + 2 * 3",
        "2 ^ 3 + 1",
        "let adder = fn(x) { fn(y) { x + y } }; let add5 = adder(5); add5(3);",
        "fn(x) { if (x > 0) { return 1; } return -1; }(-5)",
        "let f = fn(n) { if (n < 2) { return 1; } return n * f(n - 1); }; f(10)",
        "-7 / 2; 7 / -2; 1 - 2 - 3; !5; !!true",
    ];
    for text in texts {
        let written = printed(text);
        let mut env = Environment::new();
        let direct = evaluate_program(text.to_string(), &mut env, 0, 50);
        let mut env = Environment::new();
        let again = evaluate_program(written, &mut env, 0, 50);
        assert_eq!(direct, again);
    }
}

#[test]
fn trees_that_cannot_be_written() {
    let negative = Programm { statements: vec![statement(number(-5))] };
    assert_eq!(negative.print_program(), None);
    let unknown = Programm {
        statements: vec![statement(MonkeyExpression::INFIX(InfixExpression::new(
            "%".to_string(),
            token(TokenType::ILLEGAL, "%"),
            Box::new(number(1)),
            Box::new(number(2)),
        )))],
    };
    assert_eq!(unknown.print_program(), None);
    let prefix = Programm {
        statements: vec![statement(MonkeyExpression::PREFIX(PrefixExpression::new(
            token(TokenType::PLUS, "+"),
            "+".to_string(),
            number(1),
        )))],
    };
    assert_eq!(prefix.print_program(), None);
    let keyword = Programm {
        statements: vec![statement(MonkeyExpression::IDENT(Identifier::new(
            token(TokenType::IDENT, "let"),
            "let".to_string(),
        )))],
    };
    assert_eq!(keyword.print_program(), None);
    let no_arguments = Programm {
        statements: vec![statement(MonkeyExpression::CALL(CallExpression::new(
            token(TokenType::LPAREN, "("),
            Box::new(number(1)),
            Some(vec![]),
        )))],
    };
    assert_eq!(no_arguments.print_program(), None);
    let bare_block = Programm {
        statements: vec![Statement::BLOCK(BlockStatement::new(token(TokenType::LBRACE, "{"), vec![]))],
    };
    assert_eq!(bare_block.print_program(), None);
}

#[test]
fn trees_made_by_hand_are_written_by_their_structure() {
    let sum = MonkeyExpression::INFIX(InfixExpression::new(
        "+".to_string(),
        token(TokenType::ILLEGAL, "whatever"),
        Box::new(number(1)),
        Box::new(number(2)),
    ));
    let program = Programm { statements: vec![statement(sum)] };
    let written = program.print_program().unwrap();
    assert_eq!(written, "( 1 + 2 ) ; ");
    let read = parse(&written).unwrap();
    assert_eq!(read.print_program().unwrap(), written);
    match &read.statements[0] {
        Statement::EXPRESSION(s) => match &s.expression {
            MonkeyExpression::INFIX(x) => {
                assert_eq!(x.token.tokentype, TokenType::PLUS);
                assert_eq!(x.operator, "+");
            }
            other => panic!("not an infix expression: {:?}", other),
        },
        other => panic!("not an expression statement: {:?}", other),
    }
}

#[test]
fn the_empty_program_is_written_as_nothing() {
    let empty = Programm { statements: vec![] };
    assert_eq!(empty.print_program(), Some(String::new()));
}

#[test]
fn identifiers() {
    assert!(is_identifier("x"));
    assert!(is_identifier("add5"));
    assert!(is_identifier("_"));
    assert!(is_identifier("foo_bar9"));
    assert!(is_identifier("lets"));
    assert!(!is_identifier(""));
    assert!(!is_identifier("5x"));
    assert!(!is_identifier("a b"));
    assert!(!is_identifier("a-b"));
    assert!(!is_identifier("let"));
    assert!(!is_identifier("Return"));
    assert!(!is_identifier("é"));
}
