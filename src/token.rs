//! Tokens: the closed set of lexical categories and the positioned token.

use vstd::prelude::*;

verus! {

/// A lexical category, with the decoded value of a literal or the name of an
/// identifier.
#[derive(Debug, Clone, PartialEq)]
pub enum Token {
    // Type keywords.
    IntType,
    BigIntType,
    FloatType,
    DoubleType,
    StringType,
    BoolType,
    CharType,
    VoidType,
    // Literals, each with its decoded value. A floating-point literal keeps
    // its decimal spelling, digits, a point and digits.
    Integer(i64),
    FloatLiteral(String),
    StringLiteral(String),
    BoolLiteral(bool),
    CharLiteral(char),
    // A name that is not a configured keyword.
    Identifier(String),
    // Arithmetic operators.
    Plus,
    Minus,
    Multiply,
    Divide,
    Modulo,
    Power,
    // Logical operators.
    And,
    Or,
    // Delimiters.
    LeftParen,
    RightParen,
    LeftBracket,
    RightBracket,
    LeftBrace,
    RightBrace,
    Comma,
    // Comparison and negation.
    Equal,
    NotEqual,
    Greater,
    Less,
    GreaterEqual,
    LessEqual,
    Not,
    // Control keywords.
    If,
    Else,
    While,
    For,
    Switch,
    Case,
    Default,
    // Function keywords.
    Function,
    Return,
    // Assignment, statement end and end of input.
    Assign,
    Semi,
    EOF,
}

/// A token as a mathematical value: text payloads become character sequences.

pub enum TokenView {
    // Type keywords.
    IntType,
    BigIntType,
    FloatType,
    DoubleType,
    StringType,
    BoolType,
    CharType,
    VoidType,
    // Literals, each with its decoded value. A floating-point literal keeps
    // its decimal spelling, digits, a point and digits.
    Integer(i64),
    FloatLiteral(Seq<char>),
    StringLiteral(Seq<char>),
    BoolLiteral(bool),
    CharLiteral(char),
    // A name that is not a configured keyword.
    Identifier(Seq<char>),
    // Arithmetic operators.
    Plus,
    Minus,
    Multiply,
    Divide,
    Modulo,
    Power,
    // Logical operators.
    And,
    Or,
    // Delimiters.
    LeftParen,
    RightParen,
    LeftBracket,
    RightBracket,
    LeftBrace,
    RightBrace,
    Comma,
    // Comparison and negation.
    Equal,
    NotEqual,
    Greater,
    Less,
    GreaterEqual,
    LessEqual,
    Not,
    // Control keywords.
    If,
    Else,
    While,
    For,
    Switch,
    Case,
    Default,
    // Function keywords.
    Function,
    Return,
    // Assignment, statement end and end of input.
    Assign,
    Semi,
    EOF,
}

impl View for Token {
    type V = TokenView;

    open spec fn view(&self) -> TokenView {
        match self {
            Token::IntType => TokenView::IntType,
            Token::BigIntType => TokenView::BigIntType,
            Token::FloatType => TokenView::FloatType,
            Token::DoubleType => TokenView::DoubleType,
            Token::StringType => TokenView::StringType,
            Token::BoolType => TokenView::BoolType,
            Token::CharType => TokenView::CharType,
            Token::VoidType => TokenView::VoidType,
            Token::Integer(x) => TokenView::Integer(*x),
            Token::FloatLiteral(s) => TokenView::FloatLiteral(s@),
            Token::StringLiteral(s) => TokenView::StringLiteral(s@),
            Token::BoolLiteral(x) => TokenView::BoolLiteral(*x),
            Token::CharLiteral(x) => TokenView::CharLiteral(*x),
            Token::Identifier(s) => TokenView::Identifier(s@),
            Token::Plus => TokenView::Plus,
            Token::Minus => TokenView::Minus,
            Token::Multiply => TokenView::Multiply,
            Token::Divide => TokenView::Divide,
            Token::Modulo => TokenView::Modulo,
            Token::Power => TokenView::Power,
            Token::And => TokenView::And,
            Token::Or => TokenView::Or,
            Token::LeftParen => TokenView::LeftParen,
            Token::RightParen => TokenView::RightParen,
            Token::LeftBracket => TokenView::LeftBracket,
            Token::RightBracket => TokenView::RightBracket,
            Token::LeftBrace => TokenView::LeftBrace,
            Token::RightBrace => TokenView::RightBrace,
            Token::Comma => TokenView::Comma,
            Token::Equal => TokenView::Equal,
            Token::NotEqual => TokenView::NotEqual,
            Token::Greater => TokenView::Greater,
            Token::Less => TokenView::Less,
            Token::GreaterEqual => TokenView::GreaterEqual,
            Token::LessEqual => TokenView::LessEqual,
            Token::Not => TokenView::Not,
            Token::If => TokenView::If,
            Token::Else => TokenView::Else,
            Token::While => TokenView::While,
            Token::For => TokenView::For,
            Token::Switch => TokenView::Switch,
            Token::Case => TokenView::Case,
            Token::Default => TokenView::Default,
            Token::Function => TokenView::Function,
            Token::Return => TokenView::Return,
            Token::Assign => TokenView::Assign,
            Token::Semi => TokenView::Semi,
            Token::EOF => TokenView::EOF,
        }
    }
}

impl TokenView {
    /// Whether two tokens belong to the same category, whatever values they
    /// carry.
    pub open spec fn same_variant(self, other: TokenView) -> bool {
        match (self, other) {
            (TokenView::IntType, TokenView::IntType) => true,
            (TokenView::BigIntType, TokenView::BigIntType) => true,
            (TokenView::FloatType, TokenView::FloatType) => true,
            (TokenView::DoubleType, TokenView::DoubleType) => true,
            (TokenView::StringType, TokenView::StringType) => true,
            (TokenView::BoolType, TokenView::BoolType) => true,
            (TokenView::CharType, TokenView::CharType) => true,
            (TokenView::VoidType, TokenView::VoidType) => true,
            (TokenView::Integer(_), TokenView::Integer(_)) => true,
            (TokenView::FloatLiteral(_), TokenView::FloatLiteral(_)) => true,
            (TokenView::StringLiteral(_), TokenView::StringLiteral(_)) => true,
            (TokenView::BoolLiteral(_), TokenView::BoolLiteral(_)) => true,
            (TokenView::CharLiteral(_), TokenView::CharLiteral(_)) => true,
            (TokenView::Identifier(_), TokenView::Identifier(_)) => true,
            (TokenView::Plus, TokenView::Plus) => true,
            (TokenView::Minus, TokenView::Minus) => true,
            (TokenView::Multiply, TokenView::Multiply) => true,
            (TokenView::Divide, TokenView::Divide) => true,
            (TokenView::Modulo, TokenView::Modulo) => true,
            (TokenView::Power, TokenView::Power) => true,
            (TokenView::And, TokenView::And) => true,
            (TokenView::Or, TokenView::Or) => true,
            (TokenView::LeftParen, TokenView::LeftParen) => true,
            (TokenView::RightParen, TokenView::RightParen) => true,
            (TokenView::LeftBracket, TokenView::LeftBracket) => true,
            (TokenView::RightBracket, TokenView::RightBracket) => true,
            (TokenView::LeftBrace, TokenView::LeftBrace) => true,
            (TokenView::RightBrace, TokenView::RightBrace) => true,
            (TokenView::Comma, TokenView::Comma) => true,
            (TokenView::Equal, TokenView::Equal) => true,
            (TokenView::NotEqual, TokenView::NotEqual) => true,
            (TokenView::Greater, TokenView::Greater) => true,
            (TokenView::Less, TokenView::Less) => true,
            (TokenView::GreaterEqual, TokenView::GreaterEqual) => true,
            (TokenView::LessEqual, TokenView::LessEqual) => true,
            (TokenView::Not, TokenView::Not) => true,
            (TokenView::If, TokenView::If) => true,
            (TokenView::Else, TokenView::Else) => true,
            (TokenView::While, TokenView::While) => true,
            (TokenView::For, TokenView::For) => true,
            (TokenView::Switch, TokenView::Switch) => true,
            (TokenView::Case, TokenView::Case) => true,
            (TokenView::Default, TokenView::Default) => true,
            (TokenView::Function, TokenView::Function) => true,
            (TokenView::Return, TokenView::Return) => true,
            (TokenView::Assign, TokenView::Assign) => true,
            (TokenView::Semi, TokenView::Semi) => true,
            (TokenView::EOF, TokenView::EOF) => true,
            _ => false,
        }
    }

    /// Whether this is one of the eight type keywords.
    pub open spec fn is_type_keyword(self) -> bool {
        ||| self is IntType
        ||| self is BigIntType
        ||| self is FloatType
        ||| self is DoubleType
        ||| self is StringType
        ||| self is BoolType
        ||| self is CharType
        ||| self is VoidType
    }
}

impl Token {
    /// Whether two tokens belong to the same category; the values that
    /// literals and identifiers carry are not compared.
    pub fn same_variant(&self, other: &Token) -> (r: bool)
        ensures
            r == self@.same_variant(other@),
    {
        match (self, other) {
            (Token::IntType, Token::IntType) => true,
            (Token::BigIntType, Token::BigIntType) => true,
            (Token::FloatType, Token::FloatType) => true,
            (Token::DoubleType, Token::DoubleType) => true,
            (Token::StringType, Token::StringType) => true,
            (Token::BoolType, Token::BoolType) => true,
            (Token::CharType, Token::CharType) => true,
            (Token::VoidType, Token::VoidType) => true,
            (Token::Integer(_), Token::Integer(_)) => true,
            (Token::FloatLiteral(_), Token::FloatLiteral(_)) => true,
            (Token::StringLiteral(_), Token::StringLiteral(_)) => true,
            (Token::BoolLiteral(_), Token::BoolLiteral(_)) => true,
            (Token::CharLiteral(_), Token::CharLiteral(_)) => true,
            (Token::Identifier(_), Token::Identifier(_)) => true,
            (Token::Plus, Token::Plus) => true,
            (Token::Minus, Token::Minus) => true,
            (Token::Multiply, Token::Multiply) => true,
            (Token::Divide, Token::Divide) => true,
            (Token::Modulo, Token::Modulo) => true,
            (Token::Power, Token::Power) => true,
            (Token::And, Token::And) => true,
            (Token::Or, Token::Or) => true,
            (Token::LeftParen, Token::LeftParen) => true,
            (Token::RightParen, Token::RightParen) => true,
            (Token::LeftBracket, Token::LeftBracket) => true,
            (Token::RightBracket, Token::RightBracket) => true,
            (Token::LeftBrace, Token::LeftBrace) => true,
            (Token::RightBrace, Token::RightBrace) => true,
            (Token::Comma, Token::Comma) => true,
            (Token::Equal, Token::Equal) => true,
            (Token::NotEqual, Token::NotEqual) => true,
            (Token::Greater, Token::Greater) => true,
            (Token::Less, Token::Less) => true,
            (Token::GreaterEqual, Token::GreaterEqual) => true,
            (Token::LessEqual, Token::LessEqual) => true,
            (Token::Not, Token::Not) => true,
            (Token::If, Token::If) => true,
            (Token::Else, Token::Else) => true,
            (Token::While, Token::While) => true,
            (Token::For, Token::For) => true,
            (Token::Switch, Token::Switch) => true,
            (Token::Case, Token::Case) => true,
            (Token::Default, Token::Default) => true,
            (Token::Function, Token::Function) => true,
            (Token::Return, Token::Return) => true,
            (Token::Assign, Token::Assign) => true,
            (Token::Semi, Token::Semi) => true,
            (Token::EOF, Token::EOF) => true,
            _ => false,
        }
    }

    /// A copy of this token.
    pub fn duplicate(&self) -> (r: Token)
        ensures
            r == *self,
    {
        match self {
            Token::IntType => Token::IntType,
            Token::BigIntType => Token::BigIntType,
            Token::FloatType => Token::FloatType,
            Token::DoubleType => Token::DoubleType,
            Token::StringType => Token::StringType,
            Token::BoolType => Token::BoolType,
            Token::CharType => Token::CharType,
            Token::VoidType => Token::VoidType,
            Token::Integer(x) => Token::Integer(*x),
            Token::FloatLiteral(s) => Token::FloatLiteral(s.clone()),
            Token::StringLiteral(s) => Token::StringLiteral(s.clone()),
            Token::BoolLiteral(x) => Token::BoolLiteral(*x),
            Token::CharLiteral(x) => Token::CharLiteral(*x),
            Token::Identifier(s) => Token::Identifier(s.clone()),
            Token::Plus => Token::Plus,
            Token::Minus => Token::Minus,
            Token::Multiply => Token::Multiply,
            Token::Divide => Token::Divide,
            Token::Modulo => Token::Modulo,
            Token::Power => Token::Power,
            Token::And => Token::And,
            Token::Or => Token::Or,
            Token::LeftParen => Token::LeftParen,
            Token::RightParen => Token::RightParen,
            Token::LeftBracket => Token::LeftBracket,
            Token::RightBracket => Token::RightBracket,
            Token::LeftBrace => Token::LeftBrace,
            Token::RightBrace => Token::RightBrace,
            Token::Comma => Token::Comma,
            Token::Equal => Token::Equal,
            Token::NotEqual => Token::NotEqual,
            Token::Greater => Token::Greater,
            Token::Less => Token::Less,
            Token::GreaterEqual => Token::GreaterEqual,
            Token::LessEqual => Token::LessEqual,
            Token::Not => Token::Not,
            Token::If => Token::If,
            Token::Else => Token::Else,
            Token::While => Token::While,
            Token::For => Token::For,
            Token::Switch => Token::Switch,
            Token::Case => Token::Case,
            Token::Default => Token::Default,
            Token::Function => Token::Function,
            Token::Return => Token::Return,
            Token::Assign => Token::Assign,
            Token::Semi => Token::Semi,
            Token::EOF => Token::EOF,
        }
    }

    /// Whether this is one of the eight type keywords.
    pub fn is_type_keyword(&self) -> (r: bool)
        ensures
            r == self@.is_type_keyword(),
    {
        match self {
            Token::IntType | Token::BigIntType | Token::FloatType | Token::DoubleType
            | Token::StringType | Token::BoolType | Token::CharType | Token::VoidType => true,
            _ => false,
        }
    }

    /// Whether this token marks the end of input.
    pub fn is_eof(&self) -> (r: bool)
        ensures
            r == (self@ is EOF),
    {
        match self {
            Token::EOF => true,
            _ => false,
        }
    }
}

/// A token with the 1-based line and column of its first character.
#[derive(Debug, Clone, PartialEq)]
pub struct TokenData {
    pub kind: Token,
    pub line: usize,
    pub col: usize,
}

/// A positioned token as a mathematical value.
pub struct TokenDataView {
    pub kind: TokenView,
    pub line: nat,
    pub col: nat,
}

impl View for TokenData {
    type V = TokenDataView;

    open spec fn view(&self) -> TokenDataView {
        TokenDataView { kind: self.kind@, line: self.line as nat, col: self.col as nat }
    }
}

impl TokenData {
    pub fn new(kind: Token, line: usize, col: usize) -> (r: Self)
        ensures
            r.kind == kind,
            r.line == line,
            r.col == col,
    {
        TokenData { kind, line, col }
    }
}

} // verus!
