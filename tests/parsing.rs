use fabriclang::ast::{Expr, Stmt};
use fabriclang::config::SyntaxConfig;
use fabriclang::lexer::Lexer;
use fabriclang::parser::{ParseError, ParseErrorKind, Parser};
use fabriclang::token::{Token, TokenData};

fn lex(src: &str) -> Vec<TokenData> {
    let config = SyntaxConfig::standard();
    Lexer::new(src, &config).tokenize().unwrap()
}

fn parse(src: &str) -> Result<Vec<Stmt>, ParseError> {
    Parser::new(lex(src)).parse()
}

fn lit(n: i64) -> Expr {
    Expr::Literal(Token::Integer(n))
}

fn bin(left: Expr, operator: Token, right: Expr) -> Expr {
    Expr::Binary { left: Box::new(left), operator, right: Box::new(right) }
}

fn decl(ty: Token, name: &str, initializer: Option<Expr>) -> Stmt {
    Stmt::VarDeclaration { ty, name: name.to_string(), initializer }
}

#[test]
fn declaration_with_parentheses_parses() {
    assert_eq!(
        parse("int x = (10 * 5) + 2;").unwrap(),
        vec![decl(
            Token::IntType,
            "x",
            Some(bin(bin(lit(10), Token::Multiply, lit(5)), Token::Plus, lit(2)))
        )]
    );
}

#[test]
fn multiplication_binds_tighter() {
    assert_eq!(
        parse("int x = 1 + 2 * 3;").unwrap(),
        vec![decl(
            Token::IntType,
            "x",
            Some(bin(lit(1), Token::Plus, bin(lit(2), Token::Multiply, lit(3))))
        )]
    );
}

#[test]
fn operators_group_from_the_left() {
    assert_eq!(
        parse("int x = 8 - 3 - 1;").unwrap(),
        vec![decl(
            Token::IntType,
            "x",
            Some(bin(bin(lit(8), Token::Minus, lit(3)), Token::Minus, lit(1)))
        )]
    );
    assert_eq!(
        parse("int y = a / b * c;").unwrap(),
        vec![decl(
            Token::IntType,
            "y",
            Some(bin(
                bin(Expr::Variable("a".to_string()), Token::Divide, Expr::Variable("b".to_string())),
                Token::Multiply,
                Expr::Variable("c".to_string())
            ))
        )]
    );
}

#[test]
fn declarations_without_initializer() {
    assert_eq!(
        parse("int x; void v; bool b;").unwrap(),
        vec![
            decl(Token::IntType, "x", None),
            decl(Token::VoidType, "v", None),
            decl(Token::BoolType, "b", None)
        ]
    );
}

#[test]
fn literal_initializers() {
    assert_eq!(
        parse("string s = \"hi\"; double d = 2.5;").unwrap(),
        vec![
            decl(Token::StringType, "s", Some(Expr::Literal(Token::StringLiteral("hi".to_string())))),
            decl(Token::DoubleType, "d", Some(Expr::Literal(Token::FloatLiteral("2.5".to_string()))))
        ]
    );
}

#[test]
fn empty_program() {
    assert_eq!(parse("").unwrap(), vec![]);
    assert_eq!(Parser::new(vec![]).parse().unwrap(), vec![]);
}

#[test]
fn unrecognized_statement_fails() {
    let err = parse("int a;\nx = 1;").unwrap_err();
    assert_eq!(err, ParseError { kind: ParseErrorKind::UnrecognizedStatement, line: 2 });
}

#[test]
fn missing_name_fails() {
    assert_eq!(
        parse("int 5;").unwrap_err(),
        ParseError { kind: ParseErrorKind::ExpectedVariableName, line: 1 }
    );
}

#[test]
fn missing_semicolon_fails() {
    assert_eq!(
        parse("int x = 1\nint y;").unwrap_err(),
        ParseError { kind: ParseErrorKind::ExpectedSemicolon, line: 2 }
    );
}

#[test]
fn missing_value_fails() {
    assert_eq!(
        parse("int x = ;").unwrap_err(),
        ParseError { kind: ParseErrorKind::ExpectedValue, line: 1 }
    );
    assert_eq!(
        parse("int x = true;").unwrap_err(),
        ParseError { kind: ParseErrorKind::ExpectedValue, line: 1 }
    );
}

#[test]
fn missing_right_paren_fails() {
    assert_eq!(
        parse("int x = (1 + 2;").unwrap_err(),
        ParseError { kind: ParseErrorKind::ExpectedRightParen, line: 1 }
    );
}

#[test]
fn tokens_running_out_fails() {
    let tokens = vec![
        TokenData::new(Token::IntType, 4, 1),
        TokenData::new(Token::Identifier("x".to_string()), 4, 5),
    ];
    assert_eq!(
        Parser::new(tokens).parse().unwrap_err(),
        ParseError { kind: ParseErrorKind::UnexpectedEnd, line: 4 }
    );
}

#[test]
fn respelled_tokens_parse_alike() {
    let src = "int   x=(10*5)+2 ;\n// note\nstring s = \"a b\";\nfloat f = 1.50 / y;";
    let tokens = lex(src);
    let mut text = String::new();
    for t in &tokens {
        let spelling = match &t.kind {
            Token::IntType => "int".to_string(),
            Token::StringType => "string".to_string(),
            Token::FloatType => "float".to_string(),
            Token::Identifier(n) => n.clone(),
            Token::Integer(n) => n.to_string(),
            Token::FloatLiteral(f) => f.clone(),
            Token::StringLiteral(s) => format!("\"{}\"", s),
            Token::Assign => "=".to_string(),
            Token::LeftParen => "(".to_string(),
            Token::RightParen => ")".to_string(),
            Token::Multiply => "*".to_string(),
            Token::Divide => "/".to_string(),
            Token::Plus => "+".to_string(),
            Token::Semi => ";".to_string(),
            Token::EOF => String::new(),
            other => panic!("no spelling for {:?}", other),
        };
        text.push_str(&spelling);
        text.push(' ');
    }
    let again = lex(&text);
    let k1: Vec<Token> = tokens.iter().map(|t| t.kind.clone()).collect();
    let k2: Vec<Token> = again.iter().map(|t| t.kind.clone()).collect();
    assert_eq!(k1, k2);
    assert_eq!(Parser::new(tokens).parse().unwrap(), Parser::new(again).parse().unwrap());
}

#[test]
fn parsing_stops_at_end_of_input() {
    let mut tokens = lex("int x;");
    tokens.push(TokenData::new(Token::Plus, 9, 9));
    assert_eq!(Parser::new(tokens).parse().unwrap(), vec![decl(Token::IntType, "x", None)]);
}
