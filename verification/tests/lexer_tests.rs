use monkey::lexer::{is_digit, is_letter, Lexer};
use monkey::repl::create_tokens;
use monkey::token::{Token, TokenType};

fn kinds(text: &str) -> Vec<TokenType> {
    let mut lexer = Lexer::new(text.to_string());
    create_tokens(&mut lexer).iter().map(|t| t.tokentype).collect()
}

fn literals(text: &str) -> Vec<String> {
    let mut lexer = Lexer::new(text.to_string());
    create_tokens(&mut lexer).iter().map(|t| t.literal.clone()).collect()
}

#[test]
fn empty_text_is_end_of_input() {
    assert_eq!(kinds(""), vec![TokenType::EOF]);
    assert_eq!(literals(""), vec!["eof".to_string()]);
}

#[test]
fn end_of_input_repeats() {
    let mut lexer = Lexer::new("x".to_string());
    assert_eq!(lexer.next_token().tokentype, TokenType::IDENT);
    assert_eq!(lexer.next_token().tokentype, TokenType::EOF);
    assert_eq!(lexer.next_token().tokentype, TokenType::EOF);
    assert_eq!(lexer.next_token().tokentype, TokenType::EOF);
}

#[test]
fn whitespace_only_is_end_of_input() {
    assert_eq!(kinds(" \t\r\n  "), vec![TokenType::EOF]);
}

#[test]
fn trailing_whitespace_is_skipped() {
    assert_eq!(kinds("5 "), vec![TokenType::INT, TokenType::EOF]);
    assert_eq!(kinds("5;\n"), vec![TokenType::INT, TokenType::SEMICOLON, TokenType::EOF]);
}

#[test]
fn let_statement_tokens() {
    assert_eq!(
        kinds("let five = 5;"),
        vec![
            TokenType::LET,
            TokenType::IDENT,
            TokenType::ASSIGN,
            TokenType::INT,
            TokenType::SEMICOLON,
            TokenType::EOF
        ]
    );
    assert_eq!(literals("let five = 5;"), vec!["let", "five", "=", "5", ";", "eof"]);
}

#[test]
fn single_character_tokens() {
    assert_eq!(
        kinds("= + - ! * / ^ < > , ; ( ) { }"),
        vec![
            TokenType::ASSIGN,
            TokenType::PLUS,
            TokenType::MINUS,
            TokenType::BANG,
            TokenType::ASTERISK,
            TokenType::SLASH,
            TokenType::POWER,
            TokenType::LT,
            TokenType::GT,
            TokenType::COMMA,
            TokenType::SEMICOLON,
            TokenType::LPAREN,
            TokenType::RPAREN,
            TokenType::LBRACE,
            TokenType::RBRACE,
            TokenType::EOF
        ]
    );
}

#[test]
fn two_character_tokens() {
    assert_eq!(
        kinds("== != <= >= += -="),
        vec![
            TokenType::EQ,
            TokenType::NOTEQ,
            TokenType::LTEQ,
            TokenType::GTEQ,
            TokenType::PLUSSELF,
            TokenType::MINUSSELF,
            TokenType::EOF
        ]
    );
    assert_eq!(literals("== != <= >= += -="), vec!["==", "!=", "<=", ">=", "+=", "-=", "eof"]);
}

#[test]
fn two_character_tokens_without_spaces() {
    assert_eq!(
        kinds("a==b!=c"),
        vec![
            TokenType::IDENT,
            TokenType::EQ,
            TokenType::IDENT,
            TokenType::NOTEQ,
            TokenType::IDENT,
            TokenType::EOF
        ]
    );
    assert_eq!(kinds("==="), vec![TokenType::EQ, TokenType::ASSIGN, TokenType::EOF]);
    assert_eq!(kinds("!"), vec![TokenType::BANG, TokenType::EOF]);
    assert_eq!(kinds("="), vec![TokenType::ASSIGN, TokenType::EOF]);
}

#[test]
fn keywords() {
    assert_eq!(
        kinds("fn let true false if else return"),
        vec![
            TokenType::FUNCTION,
            TokenType::LET,
            TokenType::TRUE,
            TokenType::FALSE,
            TokenType::IF,
            TokenType::ELSE,
            TokenType::RETURN,
            TokenType::EOF
        ]
    );
}

#[test]
fn keywords_in_any_case() {
    assert_eq!(kinds("LET Return iF"), vec![
        TokenType::LET,
        TokenType::RETURN,
        TokenType::IF,
        TokenType::EOF
    ]);
    assert_eq!(literals("LET"), vec!["LET", "eof"]);
}

#[test]
fn lookup_keyword_classifies_words() {
    assert_eq!(TokenType::lookup_keyword("fn"), TokenType::FUNCTION);
    assert_eq!(TokenType::lookup_keyword("let"), TokenType::LET);
    assert_eq!(TokenType::lookup_keyword("true"), TokenType::TRUE);
    assert_eq!(TokenType::lookup_keyword("false"), TokenType::FALSE);
    assert_eq!(TokenType::lookup_keyword("if"), TokenType::IF);
    assert_eq!(TokenType::lookup_keyword("else"), TokenType::ELSE);
    assert_eq!(TokenType::lookup_keyword("return"), TokenType::RETURN);
    assert_eq!(TokenType::lookup_keyword("Else"), TokenType::ELSE);
    assert_eq!(TokenType::lookup_keyword("letter"), TokenType::IDENT);
    assert_eq!(TokenType::lookup_keyword("le"), TokenType::IDENT);
    assert_eq!(TokenType::lookup_keyword(""), TokenType::IDENT);
    assert_eq!(TokenType::lookup_keyword("foobar"), TokenType::IDENT);
}

#[test]
fn identifiers_begin_with_a_letter() {
    assert_eq!(literals("foo_bar baz9 _x1 add5"), vec!["foo_bar", "baz9", "_x1", "add5", "eof"]);
    assert_eq!(
        kinds("foo_bar baz9 _x1 add5"),
        vec![
            TokenType::IDENT,
            TokenType::IDENT,
            TokenType::IDENT,
            TokenType::IDENT,
            TokenType::EOF
        ]
    );
    assert_eq!(kinds("let5 if0"), vec![TokenType::IDENT, TokenType::IDENT, TokenType::EOF]);
}

#[test]
fn numbers_are_runs_of_digits() {
    assert_eq!(literals("12345 007"), vec!["12345", "007", "eof"]);
    assert_eq!(literals("12ab"), vec!["12", "ab", "eof"]);
}

#[test]
fn unknown_characters_are_illegal_tokens() {
    assert_eq!(kinds("@"), vec![TokenType::ILLEGAL, TokenType::EOF]);
    assert_eq!(literals("a # b"), vec!["a", "#", "b", "eof"]);
    assert_eq!(
        kinds("a # b"),
        vec![TokenType::IDENT, TokenType::ILLEGAL, TokenType::IDENT, TokenType::EOF]
    );
}

#[test]
fn characters_outside_ascii_are_one_token_each() {
    assert_eq!(literals("é+ü"), vec!["é", "+", "ü", "eof"]);
    assert_eq!(
        kinds("é+ü"),
        vec![TokenType::ILLEGAL, TokenType::PLUS, TokenType::ILLEGAL, TokenType::EOF]
    );
}

#[test]
fn function_literal_tokens() {
    assert_eq!(
        literals("fn(x, y) { x + y }"),
        vec!["fn", "(", "x", ",", "y", ")", "{", "x", "+", "y", "}", "eof"]
    );
}

#[test]
fn letters_and_digits() {
    assert!(is_letter('a'));
    assert!(is_letter('z'));
    assert!(is_letter('A'));
    assert!(is_letter('Z'));
    assert!(is_letter('_'));
    assert!(!is_letter('0'));
    assert!(!is_letter(' '));
    assert!(!is_letter('é'));
    assert!(is_digit('0'));
    assert!(is_digit('9'));
    assert!(!is_digit('a'));
    assert!(!is_digit('/'));
    assert!(!is_digit(':'));
}

#[test]
fn new_lexer_stands_on_first_character() {
    let lexer = Lexer::new("let".to_string());
    assert_eq!(lexer.position, 0);
    assert_eq!(lexer.ch, 'l');
    assert_eq!(lexer.input, "let");
}

#[test]
fn token_new_keeps_kind_and_literal() {
    let t = Token::new(TokenType::ASSIGN, String::from("="));
    assert_eq!(t.tokentype, TokenType::ASSIGN);
    assert_eq!(t.literal, "=");
}

#[test]
fn create_tokens_leaves_lexer_at_end() {
    let mut lexer = Lexer::new("a b".to_string());
    let tokens = create_tokens(&mut lexer);
    assert_eq!(tokens.len(), 3);
    assert_eq!(lexer.position, 3);
    assert_eq!(create_tokens(&mut lexer).len(), 1);
}
