use monkey::ast::{MonkeyExpression, Node, NodeType, Programm, Statement};
use monkey::grammar::{ParseError, Precedence};
use monkey::lexer::Lexer;
use monkey::parser::{parse_decimal, Parser};
use monkey::token::TokenType;

fn parse(text: &str) -> Result<Programm, ParseError> {
    let lexer = Lexer::new(text.to_string());
    let mut parser = Parser::new(lexer);
    parser.parse_programm()
}

/// Writes an expression with every operation in parentheses.
fn show(e: &MonkeyExpression) -> String {
    match e {
        MonkeyExpression::IDENT(x) => x.value.clone(),
        MonkeyExpression::INTEGERLITERAL(x) => format!("{}", x.value),
        MonkeyExpression::BOOLEAN(x) => format!("{}", x.value),
        MonkeyExpression::PREFIX(x) => format!("({}{})", x.operator, show(&x.right)),
        MonkeyExpression::INFIX(x) => {
            format!("({} {} {})", show(&x.left), x.operator, show(&x.right))
        }
        MonkeyExpression::IF(x) => match &x.alternative {
            Some(a) => format!(
                "if {} {} else {}",
                show(&x.condition),
                show_block(&x.consequence.statements),
                show_block(&a.statements)
            ),
            None => format!(
                "if {} {}",
                show(&x.condition),
                show_block(&x.consequence.statements)
            ),
        },
        MonkeyExpression::FUNCTIONLITERAL(x) => {
            let names: Vec<String> = x.parameters.iter().map(|p| p.value.clone()).collect();
            format!("fn({}) {}", names.join(", "), show_block(&x.blockstatment.statements))
        }
        MonkeyExpression::CALL(x) => match &x.arguments {
            Some(args) => {
                let shown: Vec<String> = args.iter().map(show).collect();
                format!("{}({})", show(&x.function), shown.join(", "))
            }
            None => format!("{}()", show(&x.function)),
        },
    }
}

fn show_block(statements: &Vec<Statement>) -> String {
    let shown: Vec<String> = statements.iter().map(show_statement).collect();
    format!("{{ {} }}", shown.join(" "))
}

fn show_statement(s: &Statement) -> String {
    match s {
        Statement::LET(x) => format!("let {} = {};", x.name.value, show(&x.value)),
        Statement::RETURN(x) => format!("return {};", show(&x.return_value)),
        Statement::EXPRESSION(x) => show(&x.expression),
        Statement::BLOCK(x) => show_block(&x.statements),
    }
}

fn shown(text: &str) -> String {
    let program = parse(text).unwrap();
    let parts: Vec<String> = program.statements.iter().map(show_statement).collect();
    parts.join(" ")
}

#[test]
fn product_binds_tighter_than_sum() {
    assert_eq!(shown("1 + 2 * 3"), "(1 + (2 * 3))");
    assert_eq!(shown("1 * 2 + 3"), "((1 * 2) + 3)");
}

#[test]
fn parentheses_group() {
    assert_eq!(shown("(1 + 2) * 3"), "((1 + 2) * 3)");
    assert_eq!(shown("((5))"), "5");
}

#[test]
fn power_binds_tighter_than_product_and_sum() {
    assert_eq!(shown("2 ^ 3 + 1"), "((2 ^ 3) + 1)");
    assert_eq!(shown("2 * 3 ^ 2"), "(2 * (3 ^ 2))");
}

#[test]
fn operators_of_one_level_group_from_the_left() {
    assert_eq!(shown("1 - 2 - 3"), "((1 - 2) - 3)");
    assert_eq!(shown("8 / 4 / 2"), "((8 / 4) / 2)");
    assert_eq!(shown("2 ^ 3 ^ 2"), "((2 ^ 3) ^ 2)");
}

#[test]
fn comparison_binds_looser_than_arithmetic() {
    assert_eq!(shown("1 + 2 < 3 * 4"), "((1 + 2) < (3 * 4))");
    assert_eq!(shown("1 < 2 == 3 >= 4"), "((1 < 2) == (3 >= 4))");
    assert_eq!(shown("a <= b != c > d"), "((a <= b) != (c > d))");
}

#[test]
fn prefix_binds_tighter_than_infix() {
    assert_eq!(shown("-a * b"), "((-a) * b)");
    assert_eq!(shown("!true == false"), "((!true) == false)");
    assert_eq!(shown("-2 ^ 2"), "((-2) ^ 2)");
    assert_eq!(shown("!-a"), "(!(-a))");
}

#[test]
fn call_binds_tightest() {
    assert_eq!(shown("f(x) + 1"), "(f(x) + 1)");
    assert_eq!(shown("-f(x)"), "(-f(x))");
    assert_eq!(shown("a + f(b * c, d)(e)"), "(a + f((b * c), d)(e))");
}

#[test]
fn call_without_arguments_is_told_apart() {
    let program = parse("f(); f(x);").unwrap();
    match &program.statements[0] {
        Statement::EXPRESSION(s) => match &s.expression {
            MonkeyExpression::CALL(c) => assert!(c.arguments.is_none()),
            other => panic!("not a call: {:?}", other),
        },
        other => panic!("not an expression statement: {:?}", other),
    }
    match &program.statements[1] {
        Statement::EXPRESSION(s) => match &s.expression {
            MonkeyExpression::CALL(c) => assert_eq!(c.arguments.as_ref().unwrap().len(), 1),
            other => panic!("not a call: {:?}", other),
        },
        other => panic!("not an expression statement: {:?}", other),
    }
}

#[test]
fn let_statement() {
    let program = parse("let x = 5 + 1;").unwrap();
    assert_eq!(program.statements.len(), 1);
    match &program.statements[0] {
        Statement::LET(s) => {
            assert_eq!(s.token.tokentype, TokenType::LET);
            assert_eq!(s.name.value, "x");
            assert_eq!(s.name.token.tokentype, TokenType::IDENT);
            assert_eq!(show(&s.value), "(5 + 1)");
        }
        other => panic!("not a let: {:?}", other),
    }
}

#[test]
fn return_statement() {
    let program = parse("return 2 * x;").unwrap();
    match &program.statements[0] {
        Statement::RETURN(s) => {
            assert_eq!(s.token.tokentype, TokenType::RETURN);
            assert_eq!(show(&s.return_value), "(2 * x)");
        }
        other => panic!("not a return: {:?}", other),
    }
}

#[test]
fn expression_statement_takes_its_semicolon() {
    assert_eq!(parse("1; 2; 3").unwrap().statements.len(), 3);
    assert_eq!(parse("1 2 3").unwrap().statements.len(), 3);
    assert_eq!(shown("a; b"), "a b");
}

#[test]
fn expression_statement_keeps_its_first_token() {
    let program = parse("foo + 1;").unwrap();
    match &program.statements[0] {
        Statement::EXPRESSION(s) => {
            assert_eq!(s.token.tokentype, TokenType::IDENT);
            assert_eq!(s.token.literal, "foo");
        }
        other => panic!("not an expression statement: {:?}", other),
    }
}

#[test]
fn several_statements() {
    assert_eq!(
        shown("let adder = fn(x) { fn(y) { x + y } }; let add5 = adder(5); add5(3);"),
        "let adder = fn(x) { fn(y) { (x + y) } }; let add5 = adder(5); add5(3)"
    );
}

#[test]
fn if_with_and_without_else() {
    assert_eq!(shown("if (x < y) { x }"), "if (x < y) { x }");
    assert_eq!(shown("if (x < y) { x } else { y }"), "if (x < y) { x } else { y }");
    assert_eq!(shown("if (a) { } else { }"), "if a {  } else {  }");
}

#[test]
fn function_literals() {
    assert_eq!(shown("fn() { 1 }"), "fn() { 1 }");
    assert_eq!(shown("fn(x) { x }"), "fn(x) { x }");
    assert_eq!(shown("fn(x, y, z) { x + y; z }"), "fn(x, y, z) { (x + y) z }");
    assert_eq!(
        shown("fn(x) { if (x > 0) { return 1; } return -1; }"),
        "fn(x) { if (x > 0) { return 1; } return (-1); }"
    );
}

#[test]
fn booleans() {
    let program = parse("true; false;").unwrap();
    match &program.statements[0] {
        Statement::EXPRESSION(s) => match &s.expression {
            MonkeyExpression::BOOLEAN(b) => assert!(b.value),
            other => panic!("not a boolean: {:?}", other),
        },
        other => panic!("not an expression statement: {:?}", other),
    }
    match &program.statements[1] {
        Statement::EXPRESSION(s) => match &s.expression {
            MonkeyExpression::BOOLEAN(b) => assert!(!b.value),
            other => panic!("not a boolean: {:?}", other),
        },
        other => panic!("not an expression statement: {:?}", other),
    }
}

#[test]
fn empty_input_is_no_program() {
    assert_eq!(parse("").unwrap_err(), ParseError::EmptyProgram);
    assert_eq!(parse("   \n").unwrap_err(), ParseError::EmptyProgram);
}

#[test]
fn let_needs_a_name() {
    assert_eq!(
        parse("let = 5;").unwrap_err(),
        ParseError::UnexpectedToken { expected: TokenType::IDENT, found: TokenType::ASSIGN }
    );
    assert_eq!(
        parse("let if = 5;").unwrap_err(),
        ParseError::UnexpectedToken { expected: TokenType::IDENT, found: TokenType::IF }
    );
}

#[test]
fn let_needs_an_equals_sign() {
    assert_eq!(
        parse("let x 5;").unwrap_err(),
        ParseError::UnexpectedToken { expected: TokenType::ASSIGN, found: TokenType::INT }
    );
}

#[test]
fn let_and_return_need_a_semicolon() {
    assert_eq!(
        parse("let x = 5").unwrap_err(),
        ParseError::UnexpectedToken { expected: TokenType::SEMICOLON, found: TokenType::EOF }
    );
    assert_eq!(
        parse("let x = 5 6;").unwrap_err(),
        ParseError::UnexpectedToken { expected: TokenType::SEMICOLON, found: TokenType::INT }
    );
    assert_eq!(
        parse("return 5").unwrap_err(),
        ParseError::UnexpectedToken { expected: TokenType::SEMICOLON, found: TokenType::EOF }
    );
}

#[test]
fn unclosed_parenthesis() {
    assert_eq!(
        parse("(1 + 2").unwrap_err(),
        ParseError::UnexpectedToken { expected: TokenType::RPAREN, found: TokenType::EOF }
    );
    assert_eq!(
        parse("f(1, 2").unwrap_err(),
        ParseError::UnexpectedToken { expected: TokenType::RPAREN, found: TokenType::EOF }
    );
    assert_eq!(
        parse("f(1 2)").unwrap_err(),
        ParseError::UnexpectedToken { expected: TokenType::RPAREN, found: TokenType::INT }
    );
}

#[test]
fn unclosed_brace() {
    assert_eq!(
        parse("if (x) { 1").unwrap_err(),
        ParseError::UnexpectedToken { expected: TokenType::RBRACE, found: TokenType::EOF }
    );
    assert_eq!(
        parse("fn(x) { x + 1").unwrap_err(),
        ParseError::UnexpectedToken { expected: TokenType::RBRACE, found: TokenType::EOF }
    );
}

#[test]
fn if_needs_its_delimiters() {
    assert_eq!(
        parse("if x { 1 }").unwrap_err(),
        ParseError::UnexpectedToken { expected: TokenType::LPAREN, found: TokenType::IDENT }
    );
    assert_eq!(
        parse("if (x { 1 }").unwrap_err(),
        ParseError::UnexpectedToken { expected: TokenType::RPAREN, found: TokenType::LBRACE }
    );
    assert_eq!(
        parse("if (x) 1").unwrap_err(),
        ParseError::UnexpectedToken { expected: TokenType::LBRACE, found: TokenType::INT }
    );
    assert_eq!(
        parse("if (x) { 1 } else 2").unwrap_err(),
        ParseError::UnexpectedToken { expected: TokenType::LBRACE, found: TokenType::INT }
    );
}

#[test]
fn function_needs_its_delimiters() {
    assert_eq!(
        parse("fn x { 1 }").unwrap_err(),
        ParseError::UnexpectedToken { expected: TokenType::LPAREN, found: TokenType::IDENT }
    );
    assert_eq!(
        parse("fn (x, 1) { 1 }").unwrap_err(),
        ParseError::UnexpectedToken { expected: TokenType::IDENT, found: TokenType::INT }
    );
    assert_eq!(
        parse("fn (1) { 1 }").unwrap_err(),
        ParseError::UnexpectedToken { expected: TokenType::IDENT, found: TokenType::INT }
    );
    assert_eq!(
        parse("fn (x y) { 1 }").unwrap_err(),
        ParseError::UnexpectedToken { expected: TokenType::RPAREN, found: TokenType::IDENT }
    );
    assert_eq!(
        parse("fn (x) 1").unwrap_err(),
        ParseError::UnexpectedToken { expected: TokenType::LBRACE, found: TokenType::INT }
    );
}

#[test]
fn no_expression_begins_with_an_operator() {
    assert_eq!(parse("* 5").unwrap_err(), ParseError::NoPrefixRule(TokenType::ASTERISK));
    assert_eq!(parse("1 + ;").unwrap_err(), ParseError::NoPrefixRule(TokenType::SEMICOLON));
    assert_eq!(parse("1 +").unwrap_err(), ParseError::NoPrefixRule(TokenType::EOF));
    assert_eq!(parse("return;").unwrap_err(), ParseError::NoPrefixRule(TokenType::SEMICOLON));
    assert_eq!(parse("}").unwrap_err(), ParseError::NoPrefixRule(TokenType::RBRACE));
    assert_eq!(parse("x += 1").unwrap_err(), ParseError::NoPrefixRule(TokenType::PLUSSELF));
}

#[test]
fn illegal_characters_are_rejected() {
    assert_eq!(parse("@").unwrap_err(), ParseError::NoPrefixRule(TokenType::ILLEGAL));
    assert_eq!(parse("1 + #").unwrap_err(), ParseError::NoPrefixRule(TokenType::ILLEGAL));
}

#[test]
fn integer_literals_fit_in_64_bits() {
    assert_eq!(shown("9223372036854775807"), "9223372036854775807");
    assert_eq!(parse("9223372036854775808").unwrap_err(), ParseError::InvalidInteger);
    assert_eq!(parse("99999999999999999999999").unwrap_err(), ParseError::InvalidInteger);
    assert_eq!(shown("007"), "7");
}

#[test]
fn decimal_values() {
    assert_eq!(parse_decimal("0"), Some(0));
    assert_eq!(parse_decimal("42"), Some(42));
    assert_eq!(parse_decimal("0042"), Some(42));
    assert_eq!(parse_decimal("9223372036854775807"), Some(i64::MAX));
    assert_eq!(parse_decimal("9223372036854775808"), None);
    assert_eq!(parse_decimal(""), None);
    assert_eq!(parse_decimal("12a"), None);
    assert_eq!(parse_decimal("-5"), None);
    assert_eq!(parse_decimal("+5"), None);
}

#[test]
fn precedence_levels_are_numbered_from_one() {
    assert_eq!(Precedence::LOWEST.into_i32(), 1);
    assert_eq!(Precedence::EQUAL.into_i32(), 2);
    assert_eq!(Precedence::LESSGREATER.into_i32(), 3);
    assert_eq!(Precedence::SUM.into_i32(), 4);
    assert_eq!(Precedence::PRODUCT.into_i32(), 5);
    assert_eq!(Precedence::POWER.into_i32(), 6);
    assert_eq!(Precedence::PREFIX.into_i32(), 7);
    assert_eq!(Precedence::CALL.into_i32(), 8);
}

#[test]
fn precedence_levels_from_numbers() {
    assert_eq!(Precedence::from_i32(1), Some(Precedence::LOWEST));
    assert_eq!(Precedence::from_i32(4), Some(Precedence::SUM));
    assert_eq!(Precedence::from_i32(8), Some(Precedence::CALL));
    assert_eq!(Precedence::from_i32(0), None);
    assert_eq!(Precedence::from_i32(9), None);
    assert_eq!(Precedence::from_i32(-1), None);
    for level in 1..=8 {
        assert_eq!(Precedence::from_i32(level).unwrap().into_i32(), level);
    }
}

#[test]
fn nodes_give_their_token_literal() {
    let program = parse("let x = 5; return x; x + 1;").unwrap();
    assert_eq!(program.token_literal(), Some(&"let".to_string()));
    assert_eq!(program.node_type(), NodeType::PROGRAM);
    assert_eq!(program.statements[0].token_literal(), Some(&"let".to_string()));
    assert_eq!(program.statements[1].token_literal(), Some(&"return".to_string()));
    assert_eq!(program.statements[2].token_literal(), Some(&"x".to_string()));
    assert_eq!(program.statements[0].node_type(), NodeType::STATEMENT);
    match &program.statements[2] {
        Statement::EXPRESSION(s) => {
            assert_eq!(s.expression.token_literal(), Some(&"+".to_string()));
            assert_eq!(s.expression.node_type(), NodeType::EXPRESSION);
        }
        other => panic!("not an expression statement: {:?}", other),
    }
}

#[test]
fn if_node_gives_its_own_token() {
    let program = parse("if (x) { y }").unwrap();
    match &program.statements[0] {
        Statement::EXPRESSION(s) => match &s.expression {
            MonkeyExpression::IF(x) => {
                assert_eq!(x.token_literal(), Some(&"if".to_string()));
                assert_eq!(x.consequence.token_literal(), Some(&"{".to_string()));
                assert_eq!(x.consequence.node_type(), NodeType::BLOCKSTATEMENT);
            }
            other => panic!("not an if: {:?}", other),
        },
        other => panic!("not an expression statement: {:?}", other),
    }
}

#[test]
fn parsing_twice_gives_the_same_tree() {
    let text = "let f = fn(a, b) { if (a < b) { return a; } else { return b; } }; f(1, 2 * 3);";
    assert_eq!(parse(text).unwrap(), parse(text).unwrap());
    assert_eq!(parse(text).unwrap().clone(), parse(text).unwrap());
}
