//! The parser: a token sequence to a list of statements.
//!
//! The grammar is stated by the spec functions of this module, one for each
//! rule, over the token sequence and a position in it; each gives the tree
//! it builds and the position after it, or the error that stops it.
//!
//! ```text
//! statement       := var_declaration
//! var_declaration := TYPE IDENTIFIER ( '=' expression )? ';'
//! expression      := additive
//! additive        := multiplicative ( ('+' | '-') multiplicative )*
//! multiplicative  := primary ( ('*' | '/') primary )*
//! primary         := INTEGER | FLOAT | STRING | IDENTIFIER | '(' expression ')'
//! ```

use vstd::prelude::*;
use crate::ast::{Expr, Stmt};
use crate::token::{Token, TokenData, TokenView};

verus! {

/// What stopped the parse.
#[derive(Debug, Clone, Copy, PartialEq, Eq, Structural)]
pub enum ParseErrorKind {
    /// The tokens ran out where one was needed.
    UnexpectedEnd,
    /// A statement that does not start with a type keyword.
    UnrecognizedStatement,
    /// A type keyword not followed by a name.
    ExpectedVariableName,
    /// A declaration not closed by `;`.
    ExpectedSemicolon,
    /// A token that cannot start an operand.
    ExpectedValue,
    /// A parenthesised expression not closed by `)`.
    ExpectedRightParen,
}

/// A parse error with the line of the token it was found at; where the
/// tokens ran out, the line of the last one (0 for none).
#[derive(Debug, Clone, Copy, PartialEq, Eq, Structural)]
pub struct ParseError {
    pub kind: ParseErrorKind,
    pub line: usize,
}

/// A parsed item and the position after it, or the error that stopped it.
pub type Parsed<T> = Result<(T, int), ParseError>;

/// The line of the last token, or 0 where there is none.
pub open spec fn end_line(t: Seq<TokenData>) -> usize {
    if t.len() == 0 {
        0
    } else {
        t.last().line
    }
}

/// The error `kind` at position `i`, or running out of tokens past the end.
pub open spec fn fail(t: Seq<TokenData>, i: int, kind: ParseErrorKind) -> ParseError {
    if 0 <= i < t.len() {
        ParseError { kind, line: t[i].line }
    } else {
        ParseError { kind: ParseErrorKind::UnexpectedEnd, line: end_line(t) }
    }
}

/// Whether position `i` holds a token of the same category as `k`.
pub open spec fn at_kind(t: Seq<TokenData>, i: int, k: TokenView) -> bool {
    0 <= i < t.len() && t[i].kind@.same_variant(k)
}

/// An operand: a number or string literal, a variable, or an expression in
/// parentheses.
pub open spec fn primary(t: Seq<TokenData>, i: int) -> Parsed<Expr>
    decreases t.len() - i, 0nat,
{
    if i < 0 || i >= t.len() {
        Err(fail(t, i, ParseErrorKind::ExpectedValue))
    } else {
        match t[i].kind {
            Token::Integer(_) => Ok((Expr::Literal(t[i].kind), i + 1)),
            Token::FloatLiteral(_) => Ok((Expr::Literal(t[i].kind), i + 1)),
            Token::StringLiteral(_) => Ok((Expr::Literal(t[i].kind), i + 1)),
            Token::Identifier(name) => Ok((Expr::Variable(name), i + 1)),
            Token::LeftParen => match expression(t, i + 1) {
                Ok((e, j)) => if at_kind(t, j, TokenView::RightParen) {
                    Ok((e, j + 1))
                } else {
                    Err(fail(t, j, ParseErrorKind::ExpectedRightParen))
                },
                Err(x) => Err(x),
            },
            _ => Err(fail(t, i, ParseErrorKind::ExpectedValue)),
        }
    }
}

/// Whether the token at `i` is `*` or `/`.
pub open spec fn is_mul_op(t: Seq<TokenData>, i: int) -> bool {
    0 <= i < t.len() && (t[i].kind is Multiply || t[i].kind is Divide)
}

/// Whether the token at `i` is `+` or `-`.
pub open spec fn is_add_op(t: Seq<TokenData>, i: int) -> bool {
    0 <= i < t.len() && (t[i].kind is Plus || t[i].kind is Minus)
}

/// Operands joined by `*` and `/`, grouped from the left.
pub open spec fn multiplicative(t: Seq<TokenData>, i: int) -> Parsed<Expr>
    decreases t.len() - i, 1nat,
{
    match primary(t, i) {
        Ok((e, j)) => if i < j <= t.len() {
            mul_rest(t, j, e)
        } else {
            Err(fail(t, j, ParseErrorKind::ExpectedValue))
        },
        Err(x) => Err(x),
    }
}

/// The `*` and `/` operations from `j` on, applied to `left` in turn.
pub open spec fn mul_rest(t: Seq<TokenData>, j: int, left: Expr) -> Parsed<Expr>
    decreases t.len() - j, 1nat,
{
    if is_mul_op(t, j) {
        match primary(t, j + 1) {
            Ok((r, k)) => if j < k <= t.len() {
                mul_rest(
                    t,
                    k,
                    Expr::Binary { left: Box::new(left), operator: t[j].kind, right: Box::new(r) },
                )
            } else {
                Err(fail(t, k, ParseErrorKind::ExpectedValue))
            },
            Err(x) => Err(x),
        }
    } else {
        Ok((left, j))
    }
}

/// Products joined by `+` and `-`, grouped from the left.
pub open spec fn additive(t: Seq<TokenData>, i: int) -> Parsed<Expr>
    decreases t.len() - i, 2nat,
{
    match multiplicative(t, i) {
        Ok((e, j)) => if i < j <= t.len() {
            add_rest(t, j, e)
        } else {
            Err(fail(t, j, ParseErrorKind::ExpectedValue))
        },
        Err(x) => Err(x),
    }
}

/// The `+` and `-` operations from `j` on, applied to `left` in turn.
pub open spec fn add_rest(t: Seq<TokenData>, j: int, left: Expr) -> Parsed<Expr>
    decreases t.len() - j, 2nat,
{
    if is_add_op(t, j) {
        match multiplicative(t, j + 1) {
            Ok((r, k)) => if j < k <= t.len() {
                add_rest(
                    t,
                    k,
                    Expr::Binary { left: Box::new(left), operator: t[j].kind, right: Box::new(r) },
                )
            } else {
                Err(fail(t, k, ParseErrorKind::ExpectedValue))
            },
            Err(x) => Err(x),
        }
    } else {
        Ok((left, j))
    }
}

/// An expression.
pub open spec fn expression(t: Seq<TokenData>, i: int) -> Parsed<Expr>
    decreases t.len() - i, 3nat,
{
    additive(t, i)
}

/// `s` followed by the `;` at `j`.
pub open spec fn terminated(t: Seq<TokenData>, j: int, s: Stmt) -> Parsed<Stmt> {
    if at_kind(t, j, TokenView::Semi) {
        Ok((s, j + 1))
    } else {
        Err(fail(t, j, ParseErrorKind::ExpectedSemicolon))
    }
}

/// A declaration whose type keyword is at `i`.
pub open spec fn var_declaration(t: Seq<TokenData>, i: int) -> Parsed<Stmt> {
    let n = i + 1;
    if n < 0 || n >= t.len() {
        Err(fail(t, n, ParseErrorKind::ExpectedVariableName))
    } else {
        match t[n].kind {
            Token::Identifier(name) => if at_kind(t, n + 1, TokenView::Assign) {
                match expression(t, n + 2) {
                    Ok((e, j)) => terminated(
                        t,
                        j,
                        Stmt::VarDeclaration { ty: t[i].kind, name, initializer: Some(e) },
                    ),
                    Err(x) => Err(x),
                }
            } else {
                terminated(t, n + 1, Stmt::VarDeclaration { ty: t[i].kind, name, initializer: None })
            },
            _ => Err(fail(t, n, ParseErrorKind::ExpectedVariableName)),
        }
    }
}

/// A statement: a declaration where a type keyword stands at `i`.
pub open spec fn statement(t: Seq<TokenData>, i: int) -> Parsed<Stmt> {
    if 0 <= i < t.len() && t[i].kind@.is_type_keyword() {
        var_declaration(t, i)
    } else {
        Err(fail(t, i, ParseErrorKind::UnrecognizedStatement))
    }
}

/// Whether the parse is over at `i`: no token is left or end of input stands
/// there.
pub open spec fn at_end(t: Seq<TokenData>, i: int) -> bool {
    i < 0 || i >= t.len() || t[i].kind is EOF
}

/// The statements from `i` to the end of input, or the first error.
pub open spec fn statements_from(t: Seq<TokenData>, i: int) -> Result<Seq<Stmt>, ParseError>
    decreases t.len() - i,
{
    if at_end(t, i) {
        Ok(seq![])
    } else {
        match statement(t, i) {
            Ok((s, j)) => if i < j <= t.len() {
                match statements_from(t, j) {
                    Ok(ss) => Ok(seq![s] + ss),
                    Err(x) => Err(x),
                }
            } else {
                Err(fail(t, j, ParseErrorKind::UnrecognizedStatement))
            },
            Err(x) => Err(x),
        }
    }
}

/// `ss` in front of the statements of `r`, or the error of `r`.
pub open spec fn prepend_statements(ss: Seq<Stmt>, r: Result<Seq<Stmt>, ParseError>) -> Result<
    Seq<Stmt>,
    ParseError,
> {
    match r {
        Ok(rest) => Ok(ss + rest),
        Err(x) => Err(x),
    }
}

/// Whether `r`, with the cursor left at `after`, is what the spec parse `x`
/// gives.
pub open spec fn parsed<T>(r: Result<T, ParseError>, after: int, x: Parsed<T>) -> bool {
    match x {
        Ok((v, j)) => r == Ok::<T, ParseError>(v) && after == j,
        Err(e) => r == Err::<T, ParseError>(e),
    }
}

/// Whether two token sequences hold the same tokens, wherever they stand.
pub open spec fn same_tokens(t1: Seq<TokenData>, t2: Seq<TokenData>) -> bool {
    &&& t1.len() == t2.len()
    &&& forall|i: int| 0 <= i < t1.len() ==> (#[trigger] t1[i]).kind == t2[i].kind
}

/// Whether `x2` is `x1` where that succeeds, and fails alike where it fails.
pub open spec fn same_outcome<T>(x1: Parsed<T>, x2: Parsed<T>) -> bool {
    match x1 {
        Ok(_) => x2 == x1,
        Err(e1) => x2 matches Err(e2) && e1.kind == e2.kind,
    }
}

/// An operand parses alike from two sequences that hold the same tokens.
pub proof fn lemma_primary_same_tokens(t1: Seq<TokenData>, t2: Seq<TokenData>, i: int)
    requires
        same_tokens(t1, t2),
    ensures
        same_outcome(primary(t1, i), primary(t2, i)),
    decreases t1.len() - i, 0nat,
{
    if 0 <= i < t1.len() {
        assert(t1[i].kind == t2[i].kind);
        if t1[i].kind is LeftParen {
            lemma_expression_same_tokens(t1, t2, i + 1);
            if let Ok((e, j)) = expression(t1, i + 1) {
                if 0 <= j < t1.len() {
                    assert(t1[j].kind == t2[j].kind);
                }
            }
        }
    }
}

/// The `*` and `/` operations parse alike from two sequences that hold the
/// same tokens.
pub proof fn lemma_mul_rest_same_tokens(t1: Seq<TokenData>, t2: Seq<TokenData>, j: int, left: Expr)
    requires
        same_tokens(t1, t2),
    ensures
        same_outcome(mul_rest(t1, j, left), mul_rest(t2, j, left)),
    decreases t1.len() - j, 1nat,
{
    if 0 <= j < t1.len() {
        assert(t1[j].kind == t2[j].kind);
    }
    if is_mul_op(t1, j) {
        lemma_primary_same_tokens(t1, t2, j + 1);
        if let Ok((r, k)) = primary(t1, j + 1) {
            if j < k <= t1.len() {
                lemma_mul_rest_same_tokens(
                    t1,
                    t2,
                    k,
                    Expr::Binary { left: Box::new(left), operator: t1[j].kind, right: Box::new(r) },
                );
            }
        }
    }
}

/// A product parses alike from two sequences that hold the same tokens.
pub proof fn lemma_multiplicative_same_tokens(t1: Seq<TokenData>, t2: Seq<TokenData>, i: int)
    requires
        same_tokens(t1, t2),
    ensures
        same_outcome(multiplicative(t1, i), multiplicative(t2, i)),
    decreases t1.len() - i, 1nat,
{
    lemma_primary_same_tokens(t1, t2, i);
    if let Ok((e, j)) = primary(t1, i) {
        if i < j <= t1.len() {
            lemma_mul_rest_same_tokens(t1, t2, j, e);
        }
    }
}

/// The `+` and `-` operations parse alike from two sequences that hold the
/// same tokens.
pub proof fn lemma_add_rest_same_tokens(t1: Seq<TokenData>, t2: Seq<TokenData>, j: int, left: Expr)
    requires
        same_tokens(t1, t2),
    ensures
        same_outcome(add_rest(t1, j, left), add_rest(t2, j, left)),
    decreases t1.len() - j, 2nat,
{
    if 0 <= j < t1.len() {
        assert(t1[j].kind == t2[j].kind);
    }
    if is_add_op(t1, j) {
        lemma_multiplicative_same_tokens(t1, t2, j + 1);
        if let Ok((r, k)) = multiplicative(t1, j + 1) {
            if j < k <= t1.len() {
                lemma_add_rest_same_tokens(
                    t1,
                    t2,
                    k,
                    Expr::Binary { left: Box::new(left), operator: t1[j].kind, right: Box::new(r) },
                );
            }
        }
    }
}

/// A sum parses alike from two sequences that hold the same tokens.
pub proof fn lemma_additive_same_tokens(t1: Seq<TokenData>, t2: Seq<TokenData>, i: int)
    requires
        same_tokens(t1, t2),
    ensures
        same_outcome(additive(t1, i), additive(t2, i)),
    decreases t1.len() - i, 2nat,
{
    lemma_multiplicative_same_tokens(t1, t2, i);
    if let Ok((e, j)) = multiplicative(t1, i) {
        if i < j <= t1.len() {
            lemma_add_rest_same_tokens(t1, t2, j, e);
        }
    }
}

/// An expression parses alike from two sequences that hold the same tokens.
pub proof fn lemma_expression_same_tokens(t1: Seq<TokenData>, t2: Seq<TokenData>, i: int)
    requires
        same_tokens(t1, t2),
    ensures
        same_outcome(expression(t1, i), expression(t2, i)),
    decreases t1.len() - i, 3nat,
{
    lemma_additive_same_tokens(t1, t2, i);
}

/// A statement parses alike from two sequences that hold the same tokens.
pub proof fn lemma_statement_same_tokens(t1: Seq<TokenData>, t2: Seq<TokenData>, i: int)
    requires
        same_tokens(t1, t2),
    ensures
        same_outcome(statement(t1, i), statement(t2, i)),
{
    if 0 <= i < t1.len() {
        assert(t1[i].kind == t2[i].kind);
    }
    let n = i + 1;
    if 0 <= n < t1.len() {
        assert(t1[n].kind == t2[n].kind);
    }
    if 0 <= n + 1 < t1.len() {
        assert(t1[n + 1].kind == t2[n + 1].kind);
    }
    lemma_expression_same_tokens(t1, t2, n + 2);
    if let Ok((e, j)) = expression(t1, n + 2) {
        if 0 <= j < t1.len() {
            assert(t1[j].kind == t2[j].kind);
        }
    }
}

/// The statements parsed from two token sequences that hold the same tokens
/// are the same, positions aside; where one parse fails the other fails
/// alike.
pub proof fn lemma_statements_same_tokens(t1: Seq<TokenData>, t2: Seq<TokenData>, i: int)
    requires
        same_tokens(t1, t2),
    ensures
        statements_from(t1, i) is Ok ==> statements_from(t2, i) == statements_from(t1, i),
        statements_from(t1, i) is Err ==> statements_from(t2, i) is Err,
    decreases t1.len() - i,
{
    if 0 <= i < t1.len() {
        assert(t1[i].kind == t2[i].kind);
    }
    if !at_end(t1, i) {
        lemma_statement_same_tokens(t1, t2, i);
        if let Ok((s, j)) = statement(t1, i) {
            if i < j <= t1.len() {
                lemma_statements_same_tokens(t1, t2, j);
            }
        }
    }
}

/// A cursor over a token sequence that builds statements from it.
pub struct Parser {
    tokens: Vec<TokenData>,
    current: usize,
}

impl Parser {
    /// The tokens being parsed.
    pub closed spec fn token_seq(&self) -> Seq<TokenData> {
        self.tokens@
    }

    /// The position of the next token to read.
    pub closed spec fn position(&self) -> int {
        self.current as int
    }

    /// The cursor lies within the tokens.
    pub closed spec fn wf(&self) -> bool {
        self.current <= self.tokens@.len()
    }

    /// A parser at the start of `tokens`.
    pub fn new(tokens: Vec<TokenData>) -> (r: Parser)
        ensures
            r.wf(),
            r.token_seq() == tokens@,
            r.position() == 0,
    {
        Parser { tokens, current: 0 }
    }

    fn is_at_end(&self) -> (r: bool)
        ensures
            r == at_end(self.tokens@, self.current as int),
    {
        self.current >= self.tokens.len() || self.tokens[self.current].kind.is_eof()
    }

    /// Whether the next token is of the same category as `kind`; the values
    /// that literals and identifiers carry are not compared.
    fn check(&self, kind: &Token) -> (r: bool)
        ensures
            r == at_kind(self.tokens@, self.current as int, kind@),
    {
        self.current < self.tokens.len() && self.tokens[self.current].kind.same_variant(kind)
    }

    /// The error `kind` at the cursor.
    fn fail_here(&self, kind: ParseErrorKind) -> (r: ParseError)
        ensures
            r == fail(self.tokens@, self.current as int, kind),
    {
        if self.current < self.tokens.len() {
            ParseError { kind, line: self.tokens[self.current].line }
        } else if self.tokens.len() == 0 {
            ParseError { kind: ParseErrorKind::UnexpectedEnd, line: 0 }
        } else {
            ParseError { kind: ParseErrorKind::UnexpectedEnd, line: self.tokens[self.tokens.len() - 1].line }
        }
    }

    /// Reads the next token.
    fn advance(&mut self) -> (r: Token)
        requires
            old(self).current < old(self).tokens@.len(),
        ensures
            final(self).tokens == old(self).tokens,
            final(self).current == old(self).current + 1,
            r == old(self).tokens@[old(self).current as int].kind,
    {
        let k = self.tokens[self.current].kind.duplicate();
        let n = self.tokens.len();
        assert(self.current < n);
        self.current = self.current + 1;
        k
    }

    /// Reads a token of the same category as `kind`, or fails with `error`.
    fn consume(&mut self, kind: &Token, error: ParseErrorKind) -> (r: Result<Token, ParseError>)
        requires
            old(self).wf(),
        ensures
            final(self).wf(),
            final(self).tokens == old(self).tokens,
            if at_kind(old(self).tokens@, old(self).current as int, kind@) {
                r == Ok::<Token, ParseError>(old(self).tokens@[old(self).current as int].kind)
                    && final(self).current == old(self).current + 1
            } else {
                r == Err::<Token, ParseError>(
                    fail(old(self).tokens@, old(self).current as int, error),
                ) && final(self).current == old(self).current
            },
    {
        if self.check(kind) {
            Ok(self.advance())
        } else {
            Err(self.fail_here(error))
        }
    }

    fn primary(&mut self) -> (r: Result<Expr, ParseError>)
        requires
            old(self).wf(),
        ensures
            final(self).wf(),
            final(self).tokens == old(self).tokens,
            parsed(r, final(self).current as int, primary(old(self).tokens@, old(self).current as int)),
            r is Ok ==> old(self).current < final(self).current,
        decreases old(self).tokens@.len() - old(self).current, 0nat,
    {
        if self.current >= self.tokens.len() {
            return Err(self.fail_here(ParseErrorKind::ExpectedValue));
        }
        let line = self.tokens[self.current].line;
        let token = self.advance();
        match token {
            Token::Integer(_) | Token::FloatLiteral(_) | Token::StringLiteral(_) => Ok(Expr::Literal(token)),
            Token::Identifier(name) => Ok(Expr::Variable(name)),
            Token::LeftParen => {
                let e = match self.parse_expression() {
                    Ok(e) => e,
                    Err(x) => return Err(x),
                };
                match self.consume(&Token::RightParen, ParseErrorKind::ExpectedRightParen) {
                    Ok(_) => Ok(e),
                    Err(x) => Err(x),
                }
            },
            _ => Err(ParseError { kind: ParseErrorKind::ExpectedValue, line }),
        }
    }

    fn multiplicative(&mut self) -> (r: Result<Expr, ParseError>)
        requires
            old(self).wf(),
        ensures
            final(self).wf(),
            final(self).tokens == old(self).tokens,
            parsed(r, final(self).current as int, multiplicative(old(self).tokens@, old(self).current as int)),
            r is Ok ==> old(self).current < final(self).current,
        decreases old(self).tokens@.len() - old(self).current, 1nat,
    {
        let ghost t = self.tokens@;
        let ghost i = self.current as int;
        let mut expr = match self.primary() {
            Ok(e) => e,
            Err(x) => return Err(x),
        };
        loop
            invariant
                self.wf(),
                self.tokens@ == t,
                t == old(self).tokens@,
                self.tokens == old(self).tokens,
                i == old(self).current,
                i < self.current,
                multiplicative(t, i) == mul_rest(t, self.current as int, expr),
            decreases self.tokens@.len() - self.current,
        {
            if self.current < self.tokens.len() && (self.check(&Token::Multiply) || self.check(&Token::Divide)) {
                let operator = self.advance();
                let right = match self.primary() {
                    Ok(e) => e,
                    Err(x) => return Err(x),
                };
                expr = Expr::Binary { left: Box::new(expr), operator, right: Box::new(right) };
            } else {
                return Ok(expr);
            }
        }
    }

    fn additive(&mut self) -> (r: Result<Expr, ParseError>)
        requires
            old(self).wf(),
        ensures
            final(self).wf(),
            final(self).tokens == old(self).tokens,
            parsed(r, final(self).current as int, additive(old(self).tokens@, old(self).current as int)),
            r is Ok ==> old(self).current < final(self).current,
        decreases old(self).tokens@.len() - old(self).current, 2nat,
    {
        let ghost t = self.tokens@;
        let ghost i = self.current as int;
        let mut expr = match self.multiplicative() {
            Ok(e) => e,
            Err(x) => return Err(x),
        };
        loop
            invariant
                self.wf(),
                self.tokens@ == t,
                t == old(self).tokens@,
                self.tokens == old(self).tokens,
                i == old(self).current,
                i < self.current,
                additive(t, i) == add_rest(t, self.current as int, expr),
            decreases self.tokens@.len() - self.current,
        {
            if self.current < self.tokens.len() && (self.check(&Token::Plus) || self.check(&Token::Minus)) {
                let operator = self.advance();
                let right = match self.multiplicative() {
                    Ok(e) => e,
                    Err(x) => return Err(x),
                };
                expr = Expr::Binary { left: Box::new(expr), operator, right: Box::new(right) };
            } else {
                return Ok(expr);
            }
        }
    }

    fn parse_expression(&mut self) -> (r: Result<Expr, ParseError>)
        requires
            old(self).wf(),
        ensures
            final(self).wf(),
            final(self).tokens == old(self).tokens,
            parsed(r, final(self).current as int, expression(old(self).tokens@, old(self).current as int)),
            r is Ok ==> old(self).current < final(self).current,
        decreases old(self).tokens@.len() - old(self).current, 3nat,
    {
        self.additive()
    }

    fn parse_var_declaration(&mut self) -> (r: Result<Stmt, ParseError>)
        requires
            old(self).wf(),
            old(self).current < old(self).tokens@.len(),
        ensures
            final(self).wf(),
            final(self).tokens == old(self).tokens,
            parsed(r, final(self).current as int, var_declaration(old(self).tokens@, old(self).current as int)),
            r is Ok ==> old(self).current < final(self).current,
    {
        let ty = self.advance();
        if self.current >= self.tokens.len() {
            return Err(self.fail_here(ParseErrorKind::ExpectedVariableName));
        }
        let name = match &self.tokens[self.current].kind {
            Token::Identifier(n) => n.clone(),
            _ => {
                return Err(self.fail_here(ParseErrorKind::ExpectedVariableName));
            },
        };
        self.current = self.current + 1;
        let mut initializer: Option<Expr> = None;
        if self.check(&Token::Assign) {
            self.current = self.current + 1;
            match self.parse_expression() {
                Ok(e) => {
                    initializer = Some(e);
                },
                Err(x) => {
                    return Err(x);
                },
            }
        }
        match self.consume(&Token::Semi, ParseErrorKind::ExpectedSemicolon) {
            Ok(_) => Ok(Stmt::VarDeclaration { ty, name, initializer }),
            Err(x) => Err(x),
        }
    }

    fn parse_statement(&mut self) -> (r: Result<Stmt, ParseError>)
        requires
            old(self).wf(),
        ensures
            final(self).wf(),
            final(self).tokens == old(self).tokens,
            parsed(r, final(self).current as int, statement(old(self).tokens@, old(self).current as int)),
            r is Ok ==> old(self).current < final(self).current,
    {
        if self.current < self.tokens.len() && self.tokens[self.current].kind.is_type_keyword() {
            self.parse_var_declaration()
        } else {
            Err(self.fail_here(ParseErrorKind::UnrecognizedStatement))
        }
    }

    /// Parses statements from the cursor up to the end-of-input token (or
    /// the end of the tokens): all of them, or the first error.
    pub fn parse(&mut self) -> (r: Result<Vec<Stmt>, ParseError>)
        requires
            old(self).wf(),
        ensures
            final(self).wf(),
            final(self).token_seq() == old(self).token_seq(),
            match statements_from(old(self).token_seq(), old(self).position()) {
                Ok(ss) => r matches Ok(v) && v@ == ss,
                Err(x) => r == Err::<Vec<Stmt>, ParseError>(x),
            },
    {
        let ghost t = self.tokens@;
        let ghost p0 = self.current as int;
        let mut statements: Vec<Stmt> = Vec::new();
        assert(prepend_statements(statements@, statements_from(t, p0)) == statements_from(t, p0)) by {
            if let Ok(rest) = statements_from(t, p0) {
                assert(statements@ + rest =~= rest);
            }
        }
        loop
            invariant
                self.wf(),
                self.tokens@ == t,
                t == old(self).tokens@,
                p0 == old(self).current,
                statements_from(t, p0) == prepend_statements(
                    statements@,
                    statements_from(t, self.current as int),
                ),
            decreases self.tokens@.len() - self.current,
        {
            if self.is_at_end() {
                assert(statements@ + seq![] =~= statements@);
                return Ok(statements);
            }
            let ghost before = self.current as int;
            let ghost done = statements@;
            match self.parse_statement() {
                Ok(s) => {
                    let ghost sv = s;
                    statements.push(s);
                    let ghost after = self.current as int;
                    assert(prepend_statements(done, statements_from(t, before)) == prepend_statements(
                        statements@,
                        statements_from(t, after),
                    )) by {
                        assert(statements@ =~= done + seq![sv]);
                        assert(statement(t, before) == Ok::<(Stmt, int), ParseError>((sv, after)));
                        if let Ok(rest) = statements_from(t, after) {
                            assert(done + (seq![sv] + rest) =~= (done + seq![sv]) + rest);
                        }
                    }
                },
                Err(x) => {
                    return Err(x);
                },
            }
        }
    }
}

} // verus!
