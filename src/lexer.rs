//! The lexer: source text to a sequence of positioned tokens.
//!
//! What the lexer produces is stated by the spec functions of this module,
//! which read the source as a character sequence: `next_token_at` says what
//! token starts at or after a position, and `tokens_from` strings those
//! tokens together up to the end-of-input token or the first error.

use vstd::prelude::*;
use vstd::slice::slice_subrange;
use crate::chars::{
    alphabetic, alphanumeric, chars_of, is_alphabetic, is_alphanumeric, is_ascii_digit,
    is_digit, is_whitespace, string_from_chars, whitespace,
};
use crate::config::SyntaxConfig;
use crate::syntax::SyntaxTable;
use crate::token::{Token, TokenData, TokenDataView, TokenView};

verus! {

/// What went wrong while scanning.
#[derive(Debug, Clone, Copy, PartialEq, Eq, Structural)]
pub enum LexErrorKind {
    /// A string literal that reaches the end of input.
    UnterminatedString,
    /// A `'` at the end of input.
    UnterminatedChar,
    /// A character literal that is not one character between quotes.
    InvalidChar,
    /// A decimal point that no digit follows.
    MissingFractionDigits,
    /// A letter right after a numeral.
    TrailingLetters,
    /// An integer literal above `i64::MAX`.
    IntegerOutOfRange,
    /// A `&` not followed by a second `&`.
    LoneAmpersand,
    /// A `|` not followed by a second `|`.
    LonePipe,
    /// A character that starts no token.
    UnexpectedCharacter(char),
}

/// A lexical error with the 1-based line and column it is reported at.
#[derive(Debug, Clone, Copy, PartialEq, Eq, Structural)]
pub struct LexicalError {
    pub kind: LexErrorKind,
    pub line: usize,
    pub column: usize,
}

impl LexicalError {
    pub fn new(kind: LexErrorKind, line: usize, column: usize) -> (r: Self)
        ensures
            r.kind == kind,
            r.line == line,
            r.column == column,
    {
        LexicalError { kind, line, column }
    }
}

/// The 1-based line of position `p` of `s`: one more than the newlines
/// before it.
pub open spec fn line_at(s: Seq<char>, p: int) -> nat
    decreases p,
{
    if p <= 0 {
        1
    } else if s[p - 1] == '\n' {
        line_at(s, p - 1) + 1
    } else {
        line_at(s, p - 1)
    }
}

/// The 1-based column of position `p` of `s`: one more than the characters
/// between it and the last newline before it.
pub open spec fn col_at(s: Seq<char>, p: int) -> nat
    decreases p,
{
    if p <= 0 {
        1
    } else if s[p - 1] == '\n' {
        1
    } else {
        col_at(s, p - 1) + 1
    }
}

/// The end of the longest run of characters satisfying `f` that starts at `p`.
pub open spec fn span(s: Seq<char>, p: int, f: spec_fn(char) -> bool) -> int
    decreases s.len() - p,
{
    if 0 <= p < s.len() && f(s[p]) {
        span(s, p + 1, f)
    } else {
        p
    }
}

/// Characters skipped between tokens.
pub open spec fn blank() -> spec_fn(char) -> bool {
    |c: char| whitespace(c)
}

/// Characters that continue a word.
pub open spec fn word_part() -> spec_fn(char) -> bool {
    |c: char| alphanumeric(c) || c == '_'
}

/// Decimal digits.
pub open spec fn digit() -> spec_fn(char) -> bool {
    |c: char| is_digit(c)
}

/// Characters that a line comment runs over.
pub open spec fn not_newline() -> spec_fn(char) -> bool {
    |c: char| c != '\n'
}

/// Characters that a string literal runs over.
pub open spec fn not_quote() -> spec_fn(char) -> bool {
    |c: char| c != '"'
}

/// The value of the decimal digit `c`.
pub open spec fn digit_value(c: char) -> int {
    (c as int) - ('0' as int)
}

/// The number that the decimal digits `ds` spell.
pub open spec fn decimal_value(ds: Seq<char>) -> int
    decreases ds.len(),
{
    if ds.len() == 0 {
        0
    } else {
        decimal_value(ds.drop_last()) * 10 + digit_value(ds.last())
    }
}

/// The outcome of scanning one token: its kind and the position after it, or
/// an error and the position it is reported at.
pub type Scan = Result<(TokenView, int), (LexErrorKind, int)>;

/// Whether the character after position `q` is `x`.
pub open spec fn followed_by(s: Seq<char>, q: int, x: char) -> bool {
    q + 1 < s.len() && s[q + 1] == x
}

/// A word at `q`: a configured keyword, or else an identifier.
pub open spec fn scan_word(s: Seq<char>, q: int, table: SyntaxTable) -> Scan {
    let e = span(s, q + 1, word_part());
    let w = s.subrange(q, e);
    match table.kind_of(w) {
        Some(k) => Ok((k, e)),
        None => Ok((TokenView::Identifier(w), e)),
    }
}

/// A numeral at `q`: digits, then optionally a point and digits, with no
/// letter right after.
pub open spec fn scan_number(s: Seq<char>, q: int) -> Scan {
    let d = span(s, q, digit());
    if d < s.len() && s[d] == '.' {
        if d + 1 < s.len() && is_digit(s[d + 1]) {
            let f = span(s, d + 1, digit());
            if f < s.len() && alphabetic(s[f]) {
                Err((LexErrorKind::TrailingLetters, q))
            } else {
                Ok((TokenView::FloatLiteral(s.subrange(q, f)), f))
            }
        } else {
            Err((LexErrorKind::MissingFractionDigits, q))
        }
    } else if d < s.len() && alphabetic(s[d]) {
        Err((LexErrorKind::TrailingLetters, q))
    } else if decimal_value(s.subrange(q, d)) > i64::MAX {
        Err((LexErrorKind::IntegerOutOfRange, q))
    } else {
        Ok((TokenView::Integer(decimal_value(s.subrange(q, d)) as i64), d))
    }
}

/// A string literal whose opening quote is at `q`.
pub open spec fn scan_string(s: Seq<char>, q: int) -> Scan {
    let e = span(s, q + 1, not_quote());
    if e >= s.len() {
        Err((LexErrorKind::UnterminatedString, q))
    } else {
        Ok((TokenView::StringLiteral(s.subrange(q + 1, e)), e + 1))
    }
}

/// A character literal whose opening quote is at `q`.
pub open spec fn scan_char(s: Seq<char>, q: int) -> Scan {
    if q + 1 >= s.len() {
        Err((LexErrorKind::UnterminatedChar, q))
    } else if q + 2 < s.len() && s[q + 2] == '\'' {
        Ok((TokenView::CharLiteral(s[q + 1]), q + 3))
    } else {
        Err((LexErrorKind::InvalidChar, q))
    }
}

/// A one-character token, or a two-character one where the second character
/// completes it.
pub open spec fn one_or_two(s: Seq<char>, q: int, second: char, two: TokenView, one: TokenView) -> Scan {
    if followed_by(s, q, second) {
        Ok((two, q + 2))
    } else {
        Ok((one, q + 1))
    }
}

/// Punctuation, operators and quoted literals at `q`; the rest is an
/// unexpected character.
pub open spec fn scan_symbol(s: Seq<char>, q: int) -> Scan {
    let c = s[q];
    if c == '(' {
        Ok((TokenView::LeftParen, q + 1))
    } else if c == ')' {
        Ok((TokenView::RightParen, q + 1))
    } else if c == '{' {
        Ok((TokenView::LeftBrace, q + 1))
    } else if c == '}' {
        Ok((TokenView::RightBrace, q + 1))
    } else if c == '[' {
        Ok((TokenView::LeftBracket, q + 1))
    } else if c == ']' {
        Ok((TokenView::RightBracket, q + 1))
    } else if c == ',' {
        Ok((TokenView::Comma, q + 1))
    } else if c == '&' {
        if followed_by(s, q, '&') {
            Ok((TokenView::And, q + 2))
        } else {
            Err((LexErrorKind::LoneAmpersand, q + 1))
        }
    } else if c == '|' {
        if followed_by(s, q, '|') {
            Ok((TokenView::Or, q + 2))
        } else {
            Err((LexErrorKind::LonePipe, q + 1))
        }
    } else if c == '=' {
        one_or_two(s, q, '=', TokenView::Equal, TokenView::Assign)
    } else if c == '<' {
        one_or_two(s, q, '=', TokenView::LessEqual, TokenView::Less)
    } else if c == '>' {
        one_or_two(s, q, '=', TokenView::GreaterEqual, TokenView::Greater)
    } else if c == '!' {
        one_or_two(s, q, '=', TokenView::NotEqual, TokenView::Not)
    } else if c == '+' {
        Ok((TokenView::Plus, q + 1))
    } else if c == '-' {
        Ok((TokenView::Minus, q + 1))
    } else if c == '*' {
        Ok((TokenView::Multiply, q + 1))
    } else if c == '/' {
        Ok((TokenView::Divide, q + 1))
    } else if c == '%' {
        Ok((TokenView::Modulo, q + 1))
    } else if c == '^' {
        Ok((TokenView::Power, q + 1))
    } else if c == ';' {
        Ok((TokenView::Semi, q + 1))
    } else if c == '"' {
        scan_string(s, q)
    } else if c == '\'' {
        scan_char(s, q)
    } else {
        Err((LexErrorKind::UnexpectedCharacter(c), q))
    }
}

/// The token that starts at `q`, where a non-blank character stands that
/// does not open a comment.
pub open spec fn scan(s: Seq<char>, q: int, table: SyntaxTable) -> Scan {
    if alphabetic(s[q]) {
        scan_word(s, q, table)
    } else if is_digit(s[q]) {
        scan_number(s, q)
    } else {
        scan_symbol(s, q)
    }
}

/// Whether position `q` opens a line comment.
pub open spec fn opens_comment(s: Seq<char>, q: int) -> bool {
    s[q] == '/' && followed_by(s, q, '/')
}

/// The first token at or after `p`, with its position and the position after
/// it; blanks and comments before it are skipped.
pub open spec fn next_token_at(s: Seq<char>, p: int, table: SyntaxTable) -> Result<
    (TokenDataView, int),
    (LexErrorKind, int),
>
    decreases s.len() - p,
{
    let q = span(s, p, blank());
    if q < 0 || q >= s.len() {
        Ok((TokenDataView { kind: TokenView::EOF, line: line_at(s, q), col: col_at(s, q) }, q))
    } else if opens_comment(s, q) {
        let e = span(s, q + 2, not_newline());
        proof {
            lemma_span(s, p, blank());
            lemma_span(s, q + 2, not_newline());
        }
        next_token_at(s, e, table)
    } else {
        match scan(s, q, table) {
            Ok((k, e)) => Ok((TokenDataView { kind: k, line: line_at(s, q), col: col_at(s, q) }, e)),
            Err(x) => Err(x),
        }
    }
}

/// The tokens from position `p` to the end-of-input token, or the first error.
pub open spec fn tokens_from(s: Seq<char>, p: int, table: SyntaxTable) -> Result<
    Seq<TokenDataView>,
    (LexErrorKind, int),
>
    decreases s.len() - p,
{
    match next_token_at(s, p, table) {
        Err(x) => Err(x),
        Ok((t, e)) => {
            if t.kind is EOF {
                Ok(seq![t])
            } else {
                proof {
                    lemma_next_token_advances(s, p, table);
                }
                match tokens_from(s, e, table) {
                    Ok(ts) => Ok(seq![t] + ts),
                    Err(x) => Err(x),
                }
            }
        },
    }
}

/// The error reported for `x`, at the line and column of its position.
pub open spec fn error_at(s: Seq<char>, x: (LexErrorKind, int)) -> LexicalError {
    LexicalError { kind: x.0, line: line_at(s, x.1) as usize, column: col_at(s, x.1) as usize }
}

/// The views of positioned tokens.
pub open spec fn views(ts: Seq<TokenData>) -> Seq<TokenDataView> {
    ts.map_values(|t: TokenData| t@)
}

/// Whether `r`, with the cursor left at `after`, is what the spec scan `x`
/// gives on `s`.
pub open spec fn scanned(r: Result<Token, LexicalError>, after: int, s: Seq<char>, x: Scan) -> bool {
    match x {
        Ok((k, e)) => r matches Ok(t) && t@ == k && after == e,
        Err(y) => r == Err::<Token, LexicalError>(error_at(s, y)),
    }
}

/// `ts` in front of the tokens of `r`, or the error of `r`.
pub open spec fn prepend(ts: Seq<TokenDataView>, r: Result<Seq<TokenDataView>, (LexErrorKind, int)>) -> Result<
    Seq<TokenDataView>,
    (LexErrorKind, int),
> {
    match r {
        Ok(rest) => Ok(ts + rest),
        Err(x) => Err(x),
    }
}

/// Digits spell a number at least as large as any of their prefixes do.
pub proof fn lemma_decimal_prefix(ds: Seq<char>, k: int)
    requires
        0 <= k <= ds.len(),
        forall|i: int| 0 <= i < ds.len() ==> is_digit(#[trigger] ds[i]),
    ensures
        decimal_value(ds.take(k)) <= decimal_value(ds),
        0 <= decimal_value(ds),
    decreases ds.len(),
{
    if ds.len() > 0 {
        let front = ds.drop_last();
        lemma_decimal_prefix(front, if k < ds.len() { k } else { 0 });
        if k < ds.len() {
            assert(front.take(k) =~= ds.take(k));
        } else {
            assert(ds.take(k) =~= ds);
        }
    } else {
        assert(ds.take(k) =~= ds);
    }
}

/// The value of the digits `ds[start..end]`, where it fits in an `i64`.
fn decimal_in_range(ds: &[char], start: usize, end: usize) -> (r: Option<i64>)
    requires
        start <= end <= ds@.len(),
        forall|i: int| start <= i < end ==> is_digit(#[trigger] ds@[i]),
    ensures
        match r {
            Some(v) => v == decimal_value(ds@.subrange(start as int, end as int)),
            None => decimal_value(ds@.subrange(start as int, end as int)) > i64::MAX,
        },
{
    let ghost whole = ds@.subrange(start as int, end as int);
    let mut acc: u128 = 0;
    let mut i: usize = start;
    assert(ds@.subrange(start as int, start as int) =~= Seq::<char>::empty());
    while i < end
        invariant
            start <= i <= end <= ds@.len(),
            whole == ds@.subrange(start as int, end as int),
            forall|j: int| start <= j < end ==> is_digit(#[trigger] ds@[j]),
            acc == decimal_value(ds@.subrange(start as int, i as int)),
            acc <= i64::MAX,
        decreases end - i,
    {
        let c = ds[i];
        let d = ((c as u32) - ('0' as u32)) as u128;
        assert(ds@.subrange(start as int, i + 1).drop_last() =~= ds@.subrange(start as int, i as int));
        acc = acc * 10 + d;
        i = i + 1;
        if acc > i64::MAX as u128 {
            assert(whole.take(i - start) =~= ds@.subrange(start as int, i as int));
            proof {
                lemma_decimal_prefix(whole, i - start);
            }
            return None;
        }
    }
    assert(ds@.subrange(start as int, i as int) =~= whole);
    Some(acc as i64)
}

/// A scanner over a character buffer, with the line and column of its
/// cursor and the syntax table that decides which words are keywords.
pub struct Lexer {
    input: Vec<char>,
    position: usize,
    line: usize,
    column: usize,
    table: SyntaxTable,
}

impl Lexer {
    /// The characters being scanned.
    pub closed spec fn source(&self) -> Seq<char> {
        self.input@
    }

    /// The position of the next character to scan.
    pub closed spec fn cursor(&self) -> int {
        self.position as int
    }

    /// The table that decides which words are keywords.
    pub closed spec fn syntax(&self) -> SyntaxTable {
        self.table
    }

    /// The cursor lies within the source, and the line and column are those
    /// of the cursor.
    pub closed spec fn wf(&self) -> bool {
        &&& self.position <= self.input@.len() < usize::MAX
        &&& self.line == line_at(self.input@, self.position as int)
        &&& self.column == col_at(self.input@, self.position as int)
    }

    /// A lexer at the start of `input`, with the keywords that `config`
    /// spells.
    pub fn new(input: &str, config: &SyntaxConfig) -> (r: Lexer)
        requires
            input@.len() < usize::MAX,
        ensures
            r.wf(),
            r.source() == input@,
            r.cursor() == 0,
            forall|w: Seq<char>| r.syntax().kind_of(w) == config.keyword_kind(w),
    {
        Lexer::with_table(input, SyntaxTable::from_config(config))
    }

    /// A lexer at the start of `input` with the given syntax table.
    pub fn with_table(input: &str, table: SyntaxTable) -> (r: Lexer)
        requires
            input@.len() < usize::MAX,
        ensures
            r.wf(),
            r.source() == input@,
            r.cursor() == 0,
            r.syntax() == table,
    {
        Lexer { input: chars_of(input), position: 0, line: 1, column: 1, table }
    }

    fn is_at_end(&self) -> (r: bool)
        ensures
            r == (self.position >= self.input@.len()),
    {
        self.position >= self.input.len()
    }

    /// The character at the cursor, or `'\0'` at the end.
    fn peek(&self) -> (c: char)
        ensures
            c == if self.position < self.input@.len() {
                self.input@[self.position as int]
            } else {
                '\0'
            },
    {
        if self.is_at_end() {
            '\0'
        } else {
            self.input[self.position]
        }
    }

    /// Whether the character at the cursor is `expected`.
    fn match_next(&self, expected: char) -> (r: bool)
        ensures
            r == (self.position < self.input@.len() && self.input@[self.position as int]
                == expected),
    {
        if self.is_at_end() {
            return false;
        }
        self.input[self.position] == expected
    }

    /// Moves the cursor past one character and returns it.
    fn advance(&mut self) -> (c: char)
        requires
            old(self).wf(),
            old(self).position < old(self).input@.len(),
        ensures
            final(self).wf(),
            final(self).position == old(self).position + 1,
            final(self).input == old(self).input,
            final(self).table == old(self).table,
            c == old(self).input@[old(self).position as int],
    {
        proof {
            lemma_position_bounds(self.input@, self.position as int);
        }
        let c = self.input[self.position];
        self.position = self.position + 1;
        if c == '\n' {
            self.line = self.line + 1;
            self.column = 1;
        } else {
            self.column = self.column + 1;
        }
        c
    }

    fn skip_whitespace(&mut self)
        requires
            old(self).wf(),
        ensures
            final(self).wf(),
            final(self).input == old(self).input,
            final(self).table == old(self).table,
            final(self).position == span(old(self).input@, old(self).position as int, blank()),
    {
        let ghost s = self.input@;
        let ghost p0 = self.position as int;
        let ghost input0 = self.input;
        let ghost table0 = self.table;
        while self.position < self.input.len() && is_whitespace(self.input[self.position])
            invariant
                self.wf(),
                self.input == input0,
                self.table == table0,
                s == self.input@,
                span(s, self.position as int, blank()) == span(s, p0, blank()),
            decreases self.input@.len() - self.position,
        {
            self.advance();
        }
    }
}

impl Lexer {
    /// A word: a configured keyword, or else an identifier.
    fn read_identifier(&mut self) -> (r: Token)
        requires
            old(self).wf(),
            old(self).position < old(self).input@.len(),
            alphabetic(old(self).input@[old(self).position as int]),
        ensures
            final(self).wf(),
            final(self).input == old(self).input,
            final(self).table == old(self).table,
            scanned(
                Ok(r),
                final(self).position as int,
                old(self).input@,
                scan_word(old(self).input@, old(self).position as int, old(self).table),
            ),
    {
        let ghost s = self.input@;
        let ghost input0 = self.input;
        let ghost table0 = self.table;
        let start = self.position;
        self.advance();
        while self.position < self.input.len() && (is_alphanumeric(self.input[self.position])
            || self.input[self.position] == '_')
            invariant
                self.wf(),
                self.input == input0,
                self.table == table0,
                s == self.input@,
                start < self.position,
                span(s, self.position as int, word_part()) == span(s, start + 1, word_part()),
            decreases self.input@.len() - self.position,
        {
            self.advance();
        }
        match self.table.lookup(self.input.as_slice(), start, self.position) {
            Some(k) => k,
            None => Token::Identifier(
                string_from_chars(slice_subrange(self.input.as_slice(), start, self.position)),
            ),
        }
    }

    /// A run of digits at the cursor.
    fn skip_digits(&mut self)
        requires
            old(self).wf(),
        ensures
            final(self).wf(),
            final(self).input == old(self).input,
            final(self).table == old(self).table,
            final(self).position == span(old(self).input@, old(self).position as int, digit()),
    {
        let ghost s = self.input@;
        let ghost p0 = self.position as int;
        let ghost input0 = self.input;
        let ghost table0 = self.table;
        while self.position < self.input.len() && is_ascii_digit(self.input[self.position])
            invariant
                self.wf(),
                self.input == input0,
                self.table == table0,
                s == self.input@,
                span(s, self.position as int, digit()) == span(s, p0, digit()),
            decreases self.input@.len() - self.position,
        {
            self.advance();
        }
    }

    /// A numeral: an integer, or a floating-point literal where a point and
    /// digits follow.
    fn read_number(&mut self, start_line: usize, start_col: usize) -> (r: Result<Token, LexicalError>)
        requires
            old(self).wf(),
            old(self).position < old(self).input@.len(),
            is_digit(old(self).input@[old(self).position as int]),
            start_line == line_at(old(self).input@, old(self).position as int),
            start_col == col_at(old(self).input@, old(self).position as int),
        ensures
            final(self).wf(),
            final(self).input == old(self).input,
            final(self).table == old(self).table,
            scanned(
                r,
                final(self).position as int,
                old(self).input@,
                scan_number(old(self).input@, old(self).position as int),
            ),
    {
        let ghost s = self.input@;
        let start = self.position;
        self.skip_digits();
        proof {
            lemma_span(s, start as int, digit());
        }
        if self.match_next('.') {
            self.advance();
            if !(self.position < self.input.len() && is_ascii_digit(self.input[self.position])) {
                return Err(LexicalError::new(LexErrorKind::MissingFractionDigits, start_line, start_col));
            }
            let ghost d = self.position as int;
            self.skip_digits();
            proof {
                lemma_span(s, d, digit());
            }
            if self.position < self.input.len() && is_alphabetic(self.input[self.position]) {
                return Err(LexicalError::new(LexErrorKind::TrailingLetters, start_line, start_col));
            }
            let text = string_from_chars(slice_subrange(self.input.as_slice(), start, self.position));
            return Ok(Token::FloatLiteral(text));
        }
        if self.position < self.input.len() && is_alphabetic(self.input[self.position]) {
            return Err(LexicalError::new(LexErrorKind::TrailingLetters, start_line, start_col));
        }
        match decimal_in_range(self.input.as_slice(), start, self.position) {
            Some(v) => Ok(Token::Integer(v)),
            None => Err(LexicalError::new(LexErrorKind::IntegerOutOfRange, start_line, start_col)),
        }
    }

    /// A string literal: the characters up to the closing quote.
    fn read_string(&mut self, start_line: usize, start_col: usize) -> (r: Result<Token, LexicalError>)
        requires
            old(self).wf(),
            old(self).position < old(self).input@.len(),
            start_line == line_at(old(self).input@, old(self).position as int),
            start_col == col_at(old(self).input@, old(self).position as int),
        ensures
            final(self).wf(),
            final(self).input == old(self).input,
            final(self).table == old(self).table,
            scanned(
                r,
                final(self).position as int,
                old(self).input@,
                scan_string(old(self).input@, old(self).position as int),
            ),
    {
        let ghost s = self.input@;
        let ghost input0 = self.input;
        let ghost table0 = self.table;
        let start = self.position;
        self.advance();
        while self.position < self.input.len() && self.input[self.position] != '"'
            invariant
                self.wf(),
                self.input == input0,
                self.table == table0,
                s == self.input@,
                start < self.position,
                span(s, self.position as int, not_quote()) == span(s, start + 1, not_quote()),
            decreases self.input@.len() - self.position,
        {
            self.advance();
        }
        if self.is_at_end() {
            return Err(LexicalError::new(LexErrorKind::UnterminatedString, start_line, start_col));
        }
        let content = string_from_chars(slice_subrange(self.input.as_slice(), start + 1, self.position));
        self.advance();
        Ok(Token::StringLiteral(content))
    }

    /// A character literal: one character between quotes.
    fn read_char(&mut self, start_line: usize, start_col: usize) -> (r: Result<Token, LexicalError>)
        requires
            old(self).wf(),
            old(self).position < old(self).input@.len(),
            start_line == line_at(old(self).input@, old(self).position as int),
            start_col == col_at(old(self).input@, old(self).position as int),
        ensures
            final(self).wf(),
            final(self).input == old(self).input,
            final(self).table == old(self).table,
            scanned(
                r,
                final(self).position as int,
                old(self).input@,
                scan_char(old(self).input@, old(self).position as int),
            ),
    {
        self.advance();
        if self.is_at_end() {
            return Err(LexicalError::new(LexErrorKind::UnterminatedChar, start_line, start_col));
        }
        let content = self.advance();
        if self.peek() != '\'' {
            return Err(LexicalError::new(LexErrorKind::InvalidChar, start_line, start_col));
        }
        self.advance();
        Ok(Token::CharLiteral(content))
    }
}

impl Lexer {
    /// Punctuation, an operator or a quoted literal; anything else is an
    /// unexpected character.
    fn read_symbol(&mut self, start_line: usize, start_col: usize) -> (r: Result<Token, LexicalError>)
        requires
            old(self).wf(),
            old(self).position < old(self).input@.len(),
            !opens_comment(old(self).input@, old(self).position as int),
            start_line == line_at(old(self).input@, old(self).position as int),
            start_col == col_at(old(self).input@, old(self).position as int),
        ensures
            final(self).wf(),
            final(self).input == old(self).input,
            final(self).table == old(self).table,
            scanned(
                r,
                final(self).position as int,
                old(self).input@,
                scan_symbol(old(self).input@, old(self).position as int),
            ),
    {
        let c = self.peek();
        if c == '(' {
            self.advance();
            Ok(Token::LeftParen)
        } else if c == ')' {
            self.advance();
            Ok(Token::RightParen)
        } else if c == '{' {
            self.advance();
            Ok(Token::LeftBrace)
        } else if c == '}' {
            self.advance();
            Ok(Token::RightBrace)
        } else if c == '[' {
            self.advance();
            Ok(Token::LeftBracket)
        } else if c == ']' {
            self.advance();
            Ok(Token::RightBracket)
        } else if c == ',' {
            self.advance();
            Ok(Token::Comma)
        } else if c == '&' {
            self.advance();
            if self.match_next('&') {
                self.advance();
                Ok(Token::And)
            } else {
                Err(LexicalError::new(LexErrorKind::LoneAmpersand, self.line, self.column))
            }
        } else if c == '|' {
            self.advance();
            if self.match_next('|') {
                self.advance();
                Ok(Token::Or)
            } else {
                Err(LexicalError::new(LexErrorKind::LonePipe, self.line, self.column))
            }
        } else if c == '=' {
            self.advance();
            if self.match_next('=') {
                self.advance();
                Ok(Token::Equal)
            } else {
                Ok(Token::Assign)
            }
        } else if c == '<' {
            self.advance();
            if self.match_next('=') {
                self.advance();
                Ok(Token::LessEqual)
            } else {
                Ok(Token::Less)
            }
        } else if c == '>' {
            self.advance();
            if self.match_next('=') {
                self.advance();
                Ok(Token::GreaterEqual)
            } else {
                Ok(Token::Greater)
            }
        } else if c == '!' {
            self.advance();
            if self.match_next('=') {
                self.advance();
                Ok(Token::NotEqual)
            } else {
                Ok(Token::Not)
            }
        } else if c == '+' {
            self.advance();
            Ok(Token::Plus)
        } else if c == '-' {
            self.advance();
            Ok(Token::Minus)
        } else if c == '*' {
            self.advance();
            Ok(Token::Multiply)
        } else if c == '/' {
            self.advance();
            Ok(Token::Divide)
        } else if c == '%' {
            self.advance();
            Ok(Token::Modulo)
        } else if c == '^' {
            self.advance();
            Ok(Token::Power)
        } else if c == ';' {
            self.advance();
            Ok(Token::Semi)
        } else if c == '"' {
            self.read_string(start_line, start_col)
        } else if c == '\'' {
            self.read_char(start_line, start_col)
        } else {
            Err(LexicalError::new(LexErrorKind::UnexpectedCharacter(c), start_line, start_col))
        }
    }

    /// The next token, after blanks and comments.
    fn next_token(&mut self) -> (r: Result<TokenData, LexicalError>)
        requires
            old(self).wf(),
        ensures
            final(self).wf(),
            final(self).input == old(self).input,
            final(self).table == old(self).table,
            match next_token_at(old(self).input@, old(self).position as int, old(self).table) {
                Ok((t, e)) => r matches Ok(d) && d@ == t && final(self).position == e,
                Err(x) => r == Err::<TokenData, LexicalError>(error_at(old(self).input@, x)),
            },
    {
        let ghost s = self.input@;
        let ghost p0 = self.position as int;
        let ghost input0 = self.input;
        let ghost table0 = self.table;
        loop
            invariant
                self.wf(),
                self.input == input0,
                self.table == table0,
                s == self.input@,
                next_token_at(s, self.position as int, self.table) == next_token_at(s, p0, self.table),
                input0 == old(self).input,
                table0 == old(self).table,
                p0 == old(self).position,
            decreases self.input@.len() - self.position,
        {
            let ghost before = self.position as int;
            self.skip_whitespace();
            proof {
                lemma_span(s, before, blank());
            }
            let start_line = self.line;
            let start_col = self.column;
            if self.is_at_end() {
                return Ok(TokenData::new(Token::EOF, start_line, start_col));
            }
            let c = self.peek();
            if c == '/' && self.position + 1 < self.input.len() && self.input[self.position + 1] == '/' {
                self.advance();
                self.advance();
                while self.position < self.input.len() && self.input[self.position] != '\n'
                    invariant
                        self.wf(),
                        self.input == input0,
                        self.table == table0,
                        s == self.input@,
                        self.position > before,
                        span(s, self.position as int, not_newline()) == span(
                            s,
                            span(s, before, blank()) + 2,
                            not_newline(),
                        ),
                    decreases self.input@.len() - self.position,
                {
                    self.advance();
                }
                continue;
            }
            let r = if is_alphabetic(c) {
                Ok(self.read_identifier())
            } else if is_ascii_digit(c) {
                self.read_number(start_line, start_col)
            } else {
                self.read_symbol(start_line, start_col)
            };
            return match r {
                Ok(k) => Ok(TokenData::new(k, start_line, start_col)),
                Err(e) => Err(e),
            };
        }
    }

    /// Scans from the cursor to the end of input: the tokens, ending with the
    /// one end-of-input token, or the first lexical error.
    pub fn tokenize(&mut self) -> (r: Result<Vec<TokenData>, LexicalError>)
        requires
            old(self).wf(),
        ensures
            final(self).wf(),
            final(self).source() == old(self).source(),
            final(self).syntax() == old(self).syntax(),
            match tokens_from(old(self).source(), old(self).cursor(), old(self).syntax()) {
                Ok(ts) => r matches Ok(v) && views(v@) == ts,
                Err(x) => r == Err::<Vec<TokenData>, LexicalError>(error_at(old(self).source(), x)),
            },
    {
        let ghost s = self.input@;
        let ghost p0 = self.position as int;
        let ghost input0 = self.input;
        let ghost table0 = self.table;
        let mut tokens: Vec<TokenData> = Vec::new();
        assert(views(tokens@) =~= Seq::<TokenDataView>::empty());
        assert(prepend(Seq::empty(), tokens_from(s, p0, table0)) == tokens_from(s, p0, table0)) by {
            if let Ok(rest) = tokens_from(s, p0, table0) {
                assert(Seq::<TokenDataView>::empty() + rest =~= rest);
            }
        }
        loop
            invariant
                self.wf(),
                self.input == input0,
                self.table == table0,
                s == self.input@,
                tokens_from(s, p0, table0) == prepend(
                    views(tokens@),
                    tokens_from(s, self.position as int, table0),
                ),
                input0 == old(self).input,
                table0 == old(self).table,
                p0 == old(self).position,
            decreases self.input@.len() - self.position,
        {
            let ghost before = self.position as int;
            let ghost old_views = views(tokens@);
            match self.next_token() {
                Ok(t) => {
                    proof {
                        lemma_next_token_advances(s, before, table0);
                    }
                    let eof = t.kind.is_eof();
                    let ghost tv = t@;
                    tokens.push(t);
                    assert(views(tokens@) =~= old_views + seq![tv]);
                    if eof {
                        return Ok(tokens);
                    }
                    let ghost after = self.position as int;
                    assert(prepend(old_views, tokens_from(s, before, table0)) == prepend(
                        views(tokens@),
                        tokens_from(s, after, table0),
                    )) by {
                        if let Ok(rest) = tokens_from(s, after, table0) {
                            assert(old_views + (seq![tv] + rest) =~= (old_views + seq![tv]) + rest);
                        }
                    }
                },
                Err(e) => {
                    return Err(e);
                },
            }
        }
    }
}

/// The run that `span` measures stays inside `s`, holds only characters
/// satisfying `f`, and stops at one that does not.
pub proof fn lemma_span(s: Seq<char>, p: int, f: spec_fn(char) -> bool)
    requires
        0 <= p <= s.len(),
    ensures
        p <= span(s, p, f) <= s.len(),
        forall|i: int| p <= i < span(s, p, f) ==> f(s[i]),
        span(s, p, f) < s.len() ==> !f(s[span(s, p, f)]),
    decreases s.len() - p,
{
    if p < s.len() && f(s[p]) {
        lemma_span(s, p + 1, f);
    }
}

/// A scanned token ends after its start and inside the source.
pub proof fn lemma_scan_advances(s: Seq<char>, q: int, table: SyntaxTable)
    requires
        0 <= q < s.len(),
        !opens_comment(s, q),
    ensures
        scan(s, q, table) matches Ok((k, e)) ==> q < e <= s.len(),
        scan(s, q, table) matches Err((k, e)) ==> q <= e <= s.len(),
{
    if alphabetic(s[q]) {
        lemma_span(s, q + 1, word_part());
    } else if is_digit(s[q]) {
        lemma_span(s, q, digit());
        let d = span(s, q, digit());
        if d + 1 < s.len() {
            lemma_span(s, d + 1, digit());
        }
    } else if s[q] == '"' {
        lemma_span(s, q + 1, not_quote());
    }
}

/// Every token but the end-of-input one moves the cursor forward.
pub proof fn lemma_next_token_advances(s: Seq<char>, p: int, table: SyntaxTable)
    ensures
        next_token_at(s, p, table) matches Ok((t, e)) ==> (!(t.kind is EOF) ==> 0 <= p < e
            <= s.len()),
        next_token_at(s, p, table) matches Ok((t, e)) ==> (0 <= p <= s.len() ==> p <= e
            <= s.len()),
        next_token_at(s, p, table) matches Err((k, e)) ==> (0 <= p <= s.len() ==> 0 <= e
            <= s.len()),
    decreases s.len() - p,
{
    if 0 <= p <= s.len() {
        lemma_span(s, p, blank());
        let q = span(s, p, blank());
        if 0 <= q < s.len() {
            if opens_comment(s, q) {
                lemma_span(s, q + 2, not_newline());
                lemma_next_token_advances(s, span(s, q + 2, not_newline()), table);
            } else {
                lemma_scan_advances(s, q, table);
            }
        }
    }
}

proof fn lemma_position_bounds(s: Seq<char>, p: int)
    requires
        0 <= p,
    ensures
        1 <= line_at(s, p) <= p + 1,
        1 <= col_at(s, p) <= p + 1,
    decreases p,
{
    if p > 0 {
        lemma_position_bounds(s, p - 1);
    }
}

/// A run that covers everything from `p` on ends at the end of `s`.
pub proof fn lemma_span_to_end(s: Seq<char>, p: int, f: spec_fn(char) -> bool)
    requires
        0 <= p <= s.len(),
        forall|i: int| p <= i < s.len() ==> f(#[trigger] s[i]),
    ensures
        span(s, p, f) == s.len(),
{
    lemma_span(s, p, f);
}

/// Without newlines, every position lies on line 1, one column per
/// character.
pub proof fn lemma_single_line(s: Seq<char>, p: int)
    requires
        0 <= p <= s.len(),
        forall|i: int| 0 <= i < s.len() ==> #[trigger] s[i] != '\n',
    ensures
        line_at(s, p) == 1,
        col_at(s, p) == p + 1,
    decreases p,
{
    if p > 0 {
        lemma_single_line(s, p - 1);
    }
}

/// Source made of blanks alone lexes to the end-of-input token alone, at the
/// end of the source.
pub proof fn lemma_blank_source(s: Seq<char>, table: SyntaxTable)
    requires
        forall|i: int| 0 <= i < s.len() ==> whitespace(#[trigger] s[i]),
    ensures
        tokens_from(s, 0, table) == Ok::<Seq<TokenDataView>, (LexErrorKind, int)>(
            seq![TokenDataView { kind: TokenView::EOF, line: line_at(s, s.len() as int), col: col_at(s, s.len() as int) }],
        ),
{
    assert forall|i: int| 0 <= i < s.len() implies #[trigger] blank()(s[i]) by {
        assert(whitespace(s[i]));
    }
    lemma_span_to_end(s, 0, blank());
}

/// A numeral whose value fits in an `i64` lexes to one integer token with
/// that value at line 1, column 1, followed by end of input.
pub proof fn lemma_integer_literal(ds: Seq<char>, table: SyntaxTable)
    requires
        ds.len() > 0,
        forall|i: int| 0 <= i < ds.len() ==> is_digit(#[trigger] ds[i]),
        decimal_value(ds) <= i64::MAX,
    ensures
        tokens_from(ds, 0, table) == Ok::<Seq<TokenDataView>, (LexErrorKind, int)>(
            seq![
                TokenDataView { kind: TokenView::Integer(decimal_value(ds) as i64), line: 1, col: 1 },
                TokenDataView { kind: TokenView::EOF, line: 1, col: ds.len() + 1 },
            ],
        ),
{
    let n = ds.len() as int;
    assert(!whitespace(ds[0]));
    assert forall|i: int| 0 <= i < n implies #[trigger] digit()(ds[i]) by {
        assert(is_digit(ds[i]));
    }
    assert forall|i: int| 0 <= i < n implies #[trigger] ds[i] != '\n' by {
        assert(is_digit(ds[i]));
    }
    lemma_span_to_end(ds, 0, digit());
    lemma_single_line(ds, 0);
    lemma_single_line(ds, n);
    assert(ds.subrange(0, n) =~= ds);
    assert(!alphabetic(ds[0]));
    let t0 = TokenDataView { kind: TokenView::Integer(decimal_value(ds) as i64), line: 1, col: 1 };
    let t1 = TokenDataView { kind: TokenView::EOF, line: 1, col: ds.len() + 1 };
    assert(next_token_at(ds, 0, table) == Ok::<(TokenDataView, int), (LexErrorKind, int)>((t0, n)));
    assert(next_token_at(ds, n, table) == Ok::<(TokenDataView, int), (LexErrorKind, int)>((t1, n)));
    assert(tokens_from(ds, n, table) == Ok::<Seq<TokenDataView>, (LexErrorKind, int)>(seq![t1]));
    assert(seq![t0] + seq![t1] =~= seq![t0, t1]);
}

/// The syntax table decides only what words stand for: at a character that
/// is not alphabetic, every table scans the same token or error.
pub proof fn lemma_symbols_ignore_table(s: Seq<char>, q: int, t1: SyntaxTable, t2: SyntaxTable)
    requires
        0 <= q < s.len(),
        !alphabetic(s[q]),
    ensures
        scan(s, q, t1) == scan(s, q, t2),
{
}

/// A successful scan ends with the end-of-input token, and no other token is
/// one.
pub proof fn lemma_ends_with_eof(s: Seq<char>, p: int, table: SyntaxTable)
    ensures
        tokens_from(s, p, table) matches Ok(ts) ==> {
            &&& ts.len() >= 1
            &&& ts.last().kind is EOF
            &&& forall|i: int| 0 <= i < ts.len() - 1 ==> !(#[trigger] ts[i].kind is EOF)
        },
    decreases s.len() - p,
{
    if let Ok((t, e)) = next_token_at(s, p, table) {
        if !(t.kind is EOF) {
            lemma_next_token_advances(s, p, table);
            lemma_ends_with_eof(s, e, table);
            if let Ok(rest) = tokens_from(s, e, table) {
                let ts = seq![t] + rest;
                assert forall|i: int| 0 <= i < ts.len() - 1 implies !(#[trigger] ts[i].kind is EOF) by {
                    if i > 0 {
                        assert(ts[i] == rest[i - 1]);
                    }
                }
            }
        }
    }
}

} // verus!
