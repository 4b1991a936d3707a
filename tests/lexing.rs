use fabriclang::config::SyntaxConfig;
use fabriclang::lexer::{LexErrorKind, Lexer, LexicalError};
use fabriclang::syntax::SyntaxTable;
use fabriclang::token::{Token, TokenData};

fn lex(src: &str) -> Result<Vec<TokenData>, LexicalError> {
    let config = SyntaxConfig::standard();
    let mut lexer = Lexer::new(src, &config);
    lexer.tokenize()
}

fn kinds(src: &str) -> Vec<Token> {
    lex(src).unwrap().into_iter().map(|t| t.kind).collect()
}

fn error_kind(src: &str) -> LexErrorKind {
    lex(src).unwrap_err().kind
}

#[test]
fn declaration_with_parentheses_lexes() {
    assert_eq!(
        kinds("int x = (10 * 5) + 2;"),
        vec![
            Token::IntType,
            Token::Identifier("x".to_string()),
            Token::Assign,
            Token::LeftParen,
            Token::Integer(10),
            Token::Multiply,
            Token::Integer(5),
            Token::RightParen,
            Token::Plus,
            Token::Integer(2),
            Token::Semi,
            Token::EOF,
        ]
    );
}

#[test]
fn letters_after_numeral_fail() {
    let err = lex("int x = 10abc;").unwrap_err();
    assert_eq!(err.kind, LexErrorKind::TrailingLetters);
    assert_eq!((err.line, err.column), (1, 9));
}

#[test]
fn point_without_fraction_fails() {
    let err = lex("float a = 1.;").unwrap_err();
    assert_eq!(err.kind, LexErrorKind::MissingFractionDigits);
    assert_eq!((err.line, err.column), (1, 11));
}

#[test]
fn point_at_end_of_input_fails() {
    assert_eq!(error_kind("1."), LexErrorKind::MissingFractionDigits);
}

#[test]
fn comment_lexes_to_nothing() {
    assert_eq!(kinds("// comment\nint x;"), kinds("int x;"));
}

#[test]
fn comment_at_end_of_input() {
    let tokens = lex("int x; // trailing").unwrap();
    let k: Vec<Token> = tokens.iter().map(|t| t.kind.clone()).collect();
    assert_eq!(
        k,
        vec![Token::IntType, Token::Identifier("x".to_string()), Token::Semi, Token::EOF]
    );
    assert_eq!((tokens[3].line, tokens[3].col), (1, 19));
}

#[test]
fn only_comment() {
    let tokens = lex("//").unwrap();
    assert_eq!(tokens.len(), 1);
    assert_eq!(tokens[0].kind, Token::EOF);
}

#[test]
fn whitespace_only_source() {
    for src in ["", " ", "\t\n  \r\n", "\n\n\n"] {
        let tokens = lex(src).unwrap();
        assert_eq!(tokens.len(), 1);
        assert_eq!(tokens[0].kind, Token::EOF);
    }
    let tokens = lex("  \n  ").unwrap();
    assert_eq!((tokens[0].line, tokens[0].col), (2, 3));
}

#[test]
fn integer_round_trip() {
    for n in [0i64, 7, 42, 1000, 123456789, i64::MAX] {
        let text = n.to_string();
        let tokens = lex(&text).unwrap();
        assert_eq!(tokens.len(), 2);
        assert_eq!(tokens[0].kind, Token::Integer(n));
        assert_eq!((tokens[0].line, tokens[0].col), (1, 1));
        assert_eq!(tokens[1].kind, Token::EOF);
        assert_eq!(tokens[1].col, text.len() + 1);
    }
    assert_eq!(kinds("007"), vec![Token::Integer(7), Token::EOF]);
}

#[test]
fn integer_out_of_range_fails() {
    assert_eq!(error_kind("9223372036854775808"), LexErrorKind::IntegerOutOfRange);
    assert_eq!(error_kind("99999999999999999999999"), LexErrorKind::IntegerOutOfRange);
}

#[test]
fn float_literal_keeps_its_digits() {
    assert_eq!(
        kinds("3.25 0.5"),
        vec![
            Token::FloatLiteral("3.25".to_string()),
            Token::FloatLiteral("0.5".to_string()),
            Token::EOF
        ]
    );
    assert_eq!(error_kind("3.25e"), LexErrorKind::TrailingLetters);
}

#[test]
fn all_punctuation() {
    assert_eq!(
        kinds("( ) { } [ ] , ; + - * / % ^"),
        vec![
            Token::LeftParen,
            Token::RightParen,
            Token::LeftBrace,
            Token::RightBrace,
            Token::LeftBracket,
            Token::RightBracket,
            Token::Comma,
            Token::Semi,
            Token::Plus,
            Token::Minus,
            Token::Multiply,
            Token::Divide,
            Token::Modulo,
            Token::Power,
            Token::EOF,
        ]
    );
}

#[test]
fn two_character_operators() {
    assert_eq!(
        kinds("&& || == = <= < >= > != !"),
        vec![
            Token::And,
            Token::Or,
            Token::Equal,
            Token::Assign,
            Token::LessEqual,
            Token::Less,
            Token::GreaterEqual,
            Token::Greater,
            Token::NotEqual,
            Token::Not,
            Token::EOF,
        ]
    );
    assert_eq!(kinds("a<=b"), vec![
        Token::Identifier("a".to_string()),
        Token::LessEqual,
        Token::Identifier("b".to_string()),
        Token::EOF
    ]);
}

#[test]
fn lone_ampersand_and_pipe_fail() {
    let err = lex("a & b").unwrap_err();
    assert_eq!(err.kind, LexErrorKind::LoneAmpersand);
    assert_eq!((err.line, err.column), (1, 4));
    assert_eq!(error_kind("a | b"), LexErrorKind::LonePipe);
    assert_eq!(error_kind("&"), LexErrorKind::LoneAmpersand);
}

#[test]
fn keywords_and_booleans() {
    assert_eq!(
        kinds("int bigint float double string bool char void if else while for switch case default function return true false"),
        vec![
            Token::IntType,
            Token::BigIntType,
            Token::FloatType,
            Token::DoubleType,
            Token::StringType,
            Token::BoolType,
            Token::CharType,
            Token::VoidType,
            Token::If,
            Token::Else,
            Token::While,
            Token::For,
            Token::Switch,
            Token::Case,
            Token::Default,
            Token::Function,
            Token::Return,
            Token::BoolLiteral(true),
            Token::BoolLiteral(false),
            Token::EOF,
        ]
    );
}

#[test]
fn identifiers_with_digits_and_underscores() {
    assert_eq!(
        kinds("x1 my_var integer"),
        vec![
            Token::Identifier("x1".to_string()),
            Token::Identifier("my_var".to_string()),
            Token::Identifier("integer".to_string()),
            Token::EOF
        ]
    );
}

#[test]
fn non_ascii_identifier() {
    assert_eq!(kinds("año"), vec![Token::Identifier("año".to_string()), Token::EOF]);
}

#[test]
fn string_literal() {
    assert_eq!(
        kinds("string s = \"hi there\";"),
        vec![
            Token::StringType,
            Token::Identifier("s".to_string()),
            Token::Assign,
            Token::StringLiteral("hi there".to_string()),
            Token::Semi,
            Token::EOF
        ]
    );
}

#[test]
fn unterminated_string_fails() {
    let err = lex("x = \"abc").unwrap_err();
    assert_eq!(err.kind, LexErrorKind::UnterminatedString);
    assert_eq!((err.line, err.column), (1, 5));
}

#[test]
fn character_literals() {
    assert_eq!(kinds("'a' '''"), vec![Token::CharLiteral('a'), Token::CharLiteral('\''), Token::EOF]);
    assert_eq!(error_kind("'"), LexErrorKind::UnterminatedChar);
    assert_eq!(error_kind("'ab'"), LexErrorKind::InvalidChar);
    assert_eq!(error_kind("'a"), LexErrorKind::InvalidChar);
}

#[test]
fn unexpected_character_fails() {
    let err = lex("int x;\n  @").unwrap_err();
    assert_eq!(err.kind, LexErrorKind::UnexpectedCharacter('@'));
    assert_eq!((err.line, err.column), (2, 3));
    assert_eq!(error_kind("#"), LexErrorKind::UnexpectedCharacter('#'));
}

#[test]
fn positions_across_lines() {
    let tokens = lex("int a;\n  bool b;").unwrap();
    let pos: Vec<(usize, usize)> = tokens.iter().map(|t| (t.line, t.col)).collect();
    assert_eq!(pos, vec![(1, 1), (1, 5), (1, 6), (2, 3), (2, 8), (2, 9), (2, 10)]);
}

#[test]
fn string_position_is_its_start() {
    let tokens = lex("\"a\nb\" x").unwrap();
    assert_eq!(tokens[0].kind, Token::StringLiteral("a\nb".to_string()));
    assert_eq!((tokens[0].line, tokens[0].col), (1, 1));
    assert_eq!((tokens[1].line, tokens[1].col), (2, 4));
}

#[test]
fn configured_spellings() {
    let mut config = SyntaxConfig::standard();
    config.types.int_type = "entero".to_string();
    config.keywords.if_keyword = "si".to_string();
    config.literals.true_literal = "verdadero".to_string();
    let mut lexer = Lexer::new("entero si verdadero int", &config);
    let k: Vec<Token> = lexer.tokenize().unwrap().into_iter().map(|t| t.kind).collect();
    assert_eq!(
        k,
        vec![
            Token::IntType,
            Token::If,
            Token::BoolLiteral(true),
            Token::Identifier("int".to_string()),
            Token::EOF
        ]
    );
}

#[test]
fn later_spelling_wins() {
    let mut config = SyntaxConfig::standard();
    config.keywords.return_keyword = "int".to_string();
    assert_eq!(
        Lexer::new("int", &config).tokenize().unwrap()[0].kind,
        Token::Return
    );
}

#[test]
fn punctuation_ignores_configuration() {
    let mut config = SyntaxConfig::standard();
    config.keywords.if_keyword = "+".to_string();
    let k: Vec<Token> = Lexer::new("+", &config).tokenize().unwrap().into_iter().map(|t| t.kind).collect();
    assert_eq!(k, vec![Token::Plus, Token::EOF]);
}

#[test]
fn table_lookup() {
    let config = SyntaxConfig::standard();
    let table = SyntaxTable::from_config(&config);
    let text: Vec<char> = "xwhiley".chars().collect();
    assert_eq!(table.lookup(&text, 1, 6), Some(Token::While));
    assert_eq!(table.lookup(&text, 0, 6), None);
    let mut empty = SyntaxTable::new();
    assert_eq!(empty.lookup(&text, 1, 6), None);
    empty.insert("while", Token::For);
    assert_eq!(empty.lookup(&text, 1, 6), Some(Token::For));
}

#[test]
fn lexer_with_table() {
    let mut table = SyntaxTable::new();
    table.insert("let", Token::IntType);
    let k: Vec<Token> = Lexer::with_table("let int", table).tokenize().unwrap().into_iter().map(|t| t.kind).collect();
    assert_eq!(k, vec![Token::IntType, Token::Identifier("int".to_string()), Token::EOF]);
}

#[test]
fn same_variant_ignores_payload() {
    assert!(Token::Integer(0).same_variant(&Token::Integer(99)));
    assert!(Token::Identifier("a".to_string()).same_variant(&Token::Identifier("b".to_string())));
    assert!(!Token::Integer(0).same_variant(&Token::FloatLiteral("0.0".to_string())));
    assert!(Token::Semi.same_variant(&Token::Semi));
    assert!(!Token::Semi.same_variant(&Token::Comma));
}

#[test]
fn error_constructor() {
    let e = LexicalError::new(LexErrorKind::LonePipe, 3, 4);
    assert_eq!((e.kind, e.line, e.column), (LexErrorKind::LonePipe, 3, 4));
}

#[test]
fn non_ascii_blank_and_digit() {
    assert_eq!(
        kinds("\u{A0}x\u{663} y"),
        vec![
            Token::Identifier("x\u{663}".to_string()),
            Token::Identifier("y".to_string()),
            Token::EOF
        ]
    );
    assert_eq!(error_kind("\u{663}"), LexErrorKind::UnexpectedCharacter('\u{663}'));
}
