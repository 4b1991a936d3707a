//! Lexing the source text of tokens again.
//!
//! Each token but the last is scanned from a lexeme, a stretch of the
//! source. Writing the lexemes one after another, each followed by a space,
//! gives a text that lexes to the same token kinds: comments and blanks go,
//! and nothing else changes.

use vstd::prelude::*;
use crate::lexer::{
    blank, digit, lemma_next_token_advances, lemma_span, next_token_at, not_newline, not_quote,
    opens_comment, scan, span, tokens_from, word_part, LexErrorKind, Scan,
};
use crate::syntax::SyntaxTable;
use crate::token::{TokenDataView, TokenView};

verus! {

/// `x` with its positions moved `d` further on.
pub open spec fn shift_scan(x: Scan, d: int) -> Scan {
    match x {
        Ok((k, e)) => Ok((k, e + d)),
        Err((k, p)) => Err((k, p + d)),
    }
}

/// Whether two results of `next_token_at` give the same token kind or the
/// same error, with the positions of the first `d` further on.
pub open spec fn same_next(
    x1: Result<(TokenDataView, int), (LexErrorKind, int)>,
    x2: Result<(TokenDataView, int), (LexErrorKind, int)>,
    d: int,
) -> bool {
    match x1 {
        Ok((t1, e1)) => x2 matches Ok((t2, e2)) && t1.kind == t2.kind && e1 == e2 + d,
        Err((k1, p1)) => x2 matches Err((k2, p2)) && k1 == k2 && p1 == p2 + d,
    }
}

/// The kinds of the tokens of `r`, or nothing for an error.
pub open spec fn token_kinds(r: Result<Seq<TokenDataView>, (LexErrorKind, int)>) -> Option<
    Seq<TokenView>,
> {
    match r {
        Ok(ts) => Some(ts.map_values(|t: TokenDataView| t.kind)),
        Err(_) => None,
    }
}

/// A run through `m` that stops at `m` ends there.
pub proof fn lemma_span_exact(s: Seq<char>, p: int, m: int, f: spec_fn(char) -> bool)
    requires
        0 <= p <= m <= s.len(),
        forall|i: int| p <= i < m ==> f(#[trigger] s[i]),
        m < s.len() ==> !f(s[m]),
    ensures
        span(s, p, f) == m,
    decreases m - p,
{
    if p < m {
        lemma_span_exact(s, p + 1, m, f);
    }
}

/// A run in `y` is the same run in `a + y`, `a.len()` further on.
pub proof fn lemma_span_shift(a: Seq<char>, y: Seq<char>, p: int, f: spec_fn(char) -> bool)
    requires
        0 <= p <= y.len(),
    ensures
        span(a + y, a.len() + p, f) == a.len() + span(y, p, f),
    decreases y.len() - p,
{
    if p < y.len() {
        assert((a + y)[a.len() + p] == y[p]);
        if f(y[p]) {
            lemma_span_shift(a, y, p + 1, f);
        }
    }
}

/// Scanning in `y` and in `a + y` gives the same token or error.
pub proof fn lemma_scan_shift(a: Seq<char>, y: Seq<char>, q: int, table: SyntaxTable)
    requires
        0 <= q < y.len(),
    ensures
        scan(a + y, a.len() + q, table) == shift_scan(scan(y, q, table), a.len() as int),
{
    let z = a + y;
    let n = a.len() as int;
    assert(forall|i: int| 0 <= i < y.len() ==> #[trigger] z[n + i] == y[i]);
    lemma_span(y, q, digit());
    lemma_span(y, q + 1, word_part());
    lemma_span(y, q + 1, not_quote());
    lemma_span_shift(a, y, q, digit());
    lemma_span_shift(a, y, q + 1, word_part());
    lemma_span_shift(a, y, q + 1, not_quote());
    let e = span(y, q + 1, word_part());
    assert(z.subrange(n + q, n + e) =~= y.subrange(q, e));
    let d = span(y, q, digit());
    assert(z.subrange(n + q, n + d) =~= y.subrange(q, d));
    if d + 1 <= y.len() {
        lemma_span(y, d + 1, digit());
        lemma_span_shift(a, y, d + 1, digit());
        let f = span(y, d + 1, digit());
        assert(z.subrange(n + q, n + f) =~= y.subrange(q, f));
    }
    let g = span(y, q + 1, not_quote());
    if g < y.len() {
        assert(z.subrange(n + q + 1, n + g) =~= y.subrange(q + 1, g));
    }
}

/// The next token in `y` and in `a + y` is of the same kind, or the error is
/// the same.
pub proof fn lemma_next_shift(a: Seq<char>, y: Seq<char>, p: int, table: SyntaxTable)
    requires
        0 <= p <= y.len(),
    ensures
        same_next(next_token_at(a + y, a.len() + p, table), next_token_at(y, p, table), a.len() as int),
    decreases y.len() - p,
{
    let z = a + y;
    let n = a.len() as int;
    assert(forall|i: int| 0 <= i < y.len() ==> #[trigger] z[n + i] == y[i]);
    lemma_span(y, p, blank());
    lemma_span_shift(a, y, p, blank());
    let q = span(y, p, blank());
    if q < y.len() {
        if opens_comment(y, q) {
            lemma_span(y, q + 2, not_newline());
            lemma_span_shift(a, y, q + 2, not_newline());
            lemma_next_shift(a, y, span(y, q + 2, not_newline()), table);
        } else {
            lemma_scan_shift(a, y, q, table);
        }
    }
}

/// The tokens from `p` in `y` and from `a.len() + p` in `a + y` are of the
/// same kinds, or both scans fail.
pub proof fn lemma_tokens_shift(a: Seq<char>, y: Seq<char>, p: int, table: SyntaxTable)
    requires
        0 <= p <= y.len(),
    ensures
        token_kinds(tokens_from(a + y, a.len() + p, table)) == token_kinds(tokens_from(y, p, table)),
    decreases y.len() - p,
{
    let z = a + y;
    let n = a.len() as int;
    lemma_next_shift(a, y, p, table);
    lemma_next_token_advances(y, p, table);
    match next_token_at(y, p, table) {
        Ok((t2, e2)) => {
            let (t1, e1) = next_token_at(z, n + p, table)->Ok_0;
            if t2.kind is EOF {
                assert(seq![t1].map_values(|t: TokenDataView| t.kind) =~= seq![t2].map_values(
                    |t: TokenDataView| t.kind,
                ));
            } else {
                lemma_tokens_shift(a, y, e2, table);
                if let Ok(r2) = tokens_from(y, e2, table) {
                    let r1 = tokens_from(z, e1, table)->Ok_0;
                    assert((seq![t1] + r1).map_values(|t: TokenDataView| t.kind) =~= (seq![t2]
                        + r2).map_values(|t: TokenDataView| t.kind)) by {
                        assert(r1.map_values(|t: TokenDataView| t.kind) =~= r2.map_values(
                            |t: TokenDataView| t.kind,
                        ));
                        let k1 = r1.map_values(|t: TokenDataView| t.kind);
                        let k2 = r2.map_values(|t: TokenDataView| t.kind);
                        assert(k1.len() == r1.len() && k2.len() == r2.len());
                        let m1 = (seq![t1] + r1).map_values(|t: TokenDataView| t.kind);
                        let m2 = (seq![t2] + r2).map_values(|t: TokenDataView| t.kind);
                        assert(m1.len() == m2.len());
                        assert forall|i: int| 0 <= i < m1.len() implies m1[i] == m2[i] by {
                            if i > 0 {
                                assert((seq![t1] + r1)[i] == r1[i - 1]);
                                assert((seq![t2] + r2)[i] == r2[i - 1]);
                                assert(k1[i - 1] == k2[i - 1]);
                            }
                        }
                    }
                }
            }
        },
        Err(_) => {},
    }
}

/// Where the next token from `p` starts, after blanks and comments.
pub open spec fn token_start(s: Seq<char>, p: int) -> int
    decreases s.len() - p,
{
    let q = span(s, p, blank());
    if 0 <= q < s.len() && opens_comment(s, q) {
        proof {
            lemma_span(s, p, blank());
            lemma_span(s, q + 2, not_newline());
        }
        token_start(s, span(s, q + 2, not_newline()))
    } else {
        q
    }
}

/// The lexemes of the tokens from `p` on, the end-of-input token aside; none
/// where the scan fails.
pub open spec fn lexemes_from(s: Seq<char>, p: int, table: SyntaxTable) -> Seq<Seq<char>>
    decreases s.len() - p,
{
    match next_token_at(s, p, table) {
        Ok((t, e)) => {
            if t.kind is EOF {
                seq![]
            } else {
                proof {
                    lemma_next_token_advances(s, p, table);
                }
                seq![s.subrange(token_start(s, p), e)] + lexemes_from(s, e, table)
            }
        },
        Err(_) => seq![],
    }
}

/// The lexemes `ls` written one after another, each followed by a space.
pub open spec fn joined(ls: Seq<Seq<char>>) -> Seq<char>
    decreases ls.len(),
{
    if ls.len() == 0 {
        seq![]
    } else {
        ls[0] + seq![' '] + joined(ls.drop_first())
    }
}

/// A token other than end of input is scanned at `token_start`, past blanks
/// and comments.
pub proof fn lemma_token_start(s: Seq<char>, p: int, table: SyntaxTable)
    requires
        0 <= p <= s.len(),
    ensures
        next_token_at(s, p, table) matches Ok((t, e)) ==> (!(t.kind is EOF) ==> {
            let q = token_start(s, p);
            &&& 0 <= q < s.len()
            &&& !blank()(s[q])
            &&& !opens_comment(s, q)
            &&& scan(s, q, table) == Ok::<(TokenView, int), (LexErrorKind, int)>((t.kind, e))
        }),
    decreases s.len() - p,
{
    lemma_span(s, p, blank());
    let q = span(s, p, blank());
    if 0 <= q < s.len() && opens_comment(s, q) {
        lemma_span(s, q + 2, not_newline());
        lemma_token_start(s, span(s, q + 2, not_newline()), table);
    }
}

/// A token scanned from the lexeme `l`, now followed by a space, scans the
/// same.
pub proof fn lemma_rescan(s: Seq<char>, q: int, table: SyntaxTable, y: Seq<char>)
    requires
        0 <= q < s.len(),
        !opens_comment(s, q),
        scan(s, q, table) is Ok,
    ensures
        ({
            let (k, e) = scan(s, q, table)->Ok_0;
            let l = s.subrange(q, e);
            let x = l + seq![' '] + y;
            &&& scan(x, 0, table) == Ok::<(TokenView, int), (LexErrorKind, int)>((k, l.len() as int))
            &&& !opens_comment(x, 0)
            &&& x[0] == s[q]
            &&& x[l.len() as int] == ' '
        }),
{
    crate::lexer::lemma_scan_advances(s, q, table);
    let (k, e) = scan(s, q, table)->Ok_0;
    let l = s.subrange(q, e);
    let x = l + seq![' '] + y;
    let m = l.len() as int;
    assert(m == e - q);
    assert forall|i: int| 0 <= i < m implies #[trigger] x[i] == s[q + i] by {
        assert(x[i] == l[i]);
    }
    assert(x[m] == ' ');
    assert(!word_part()(' '));
    assert(!digit()(' '));
    if crate::chars::alphabetic(s[q]) {
        lemma_span(s, q + 1, word_part());
        let w = span(s, q + 1, word_part());
        assert forall|i: int| 1 <= i < w - q implies word_part()(#[trigger] x[i]) by {
            assert(x[i] == s[q + i]);
        }
        lemma_span_exact(x, 1, w - q, word_part());
        assert(x.subrange(0, w - q) =~= l);
    } else if crate::chars::is_digit(s[q]) {
        lemma_span(s, q, digit());
        let d = span(s, q, digit());
        if d < s.len() && s[d] == '.' {
            lemma_span(s, d + 1, digit());
            let f = span(s, d + 1, digit());
            assert(e == f && f > d + 1);
            assert forall|i: int| 0 <= i < d - q implies digit()(#[trigger] x[i]) by {
                assert(x[i] == s[q + i]);
            }
            assert(x[d - q] == s[d]);
            lemma_span_exact(x, 0, d - q, digit());
            assert(x[d - q + 1] == s[d + 1]);
            assert forall|i: int| d - q + 1 <= i < f - q implies digit()(#[trigger] x[i]) by {
                assert(x[i] == s[q + i]);
            }
            lemma_span_exact(x, d - q + 1, f - q, digit());
            assert(x.subrange(0, f - q) =~= l);
        } else {
            assert(e == d);
            assert forall|i: int| 0 <= i < d - q implies digit()(#[trigger] x[i]) by {
                assert(x[i] == s[q + i]);
            }
            lemma_span_exact(x, 0, d - q, digit());
            assert(x.subrange(0, d - q) =~= l);
        }
    } else if s[q] == '"' {
        lemma_span(s, q + 1, not_quote());
        let g = span(s, q + 1, not_quote());
        assert forall|i: int| 1 <= i < g - q implies not_quote()(#[trigger] x[i]) by {
            assert(x[i] == s[q + i]);
        }
        assert(x[g - q] == s[g]);
        lemma_span_exact(x, 1, g - q, not_quote());
        assert(x.subrange(1, g - q) =~= s.subrange(q + 1, g));
    } else if m >= 2 {
        assert(x[1] == s[q + 1]);
        if m >= 3 {
            assert(x[2] == s[q + 2]);
        }
    }
}

/// Lexing the lexemes of the tokens from `p`, each followed by a space,
/// gives tokens of the same kinds.
pub proof fn lemma_relex_from(s: Seq<char>, p: int, table: SyntaxTable)
    requires
        0 <= p <= s.len(),
        tokens_from(s, p, table) is Ok,
    ensures
        token_kinds(tokens_from(joined(lexemes_from(s, p, table)), 0, table)) == token_kinds(
            tokens_from(s, p, table),
        ),
    decreases s.len() - p,
{
    let (t, e) = next_token_at(s, p, table)->Ok_0;
    if t.kind is EOF {
        let x = joined(lexemes_from(s, p, table));
        assert(x =~= Seq::<char>::empty());
        let t1 = next_token_at(x, 0, table)->Ok_0.0;
        assert(seq![t1].map_values(|u: TokenDataView| u.kind) =~= seq![t].map_values(
            |u: TokenDataView| u.kind,
        ));
    } else {
        lemma_next_token_advances(s, p, table);
        lemma_token_start(s, p, table);
        lemma_relex_from(s, e, table);
        let q = token_start(s, p);
        let l = s.subrange(q, e);
        let rest = lexemes_from(s, e, table);
        let y = joined(rest);
        let a = l + seq![' '];
        let x = a + y;
        let m = l.len() as int;
        assert((seq![l] + rest).drop_first() =~= rest);
        assert(joined(lexemes_from(s, p, table)) == x);
        lemma_rescan(s, q, table, y);
        assert(l + seq![' '] + y == x);
        assert(span(x, 0, blank()) == 0);
        let t1 = next_token_at(x, 0, table)->Ok_0.0;
        assert(next_token_at(x, 0, table) == Ok::<(TokenDataView, int), (LexErrorKind, int)>((t1, m)));
        assert(t1.kind == t.kind);
        assert(x[m] == ' ');
        assert(span(x, m, blank()) == span(x, m + 1, blank()));
        assert(next_token_at(x, m, table) == next_token_at(x, m + 1, table));
        assert(tokens_from(x, m, table) == tokens_from(x, m + 1, table));
        lemma_tokens_shift(a, y, 0, table);
        assert(a.len() == m + 1);
        let r2 = tokens_from(s, e, table)->Ok_0;
        let r1 = tokens_from(x, m, table)->Ok_0;
        let k1 = r1.map_values(|u: TokenDataView| u.kind);
        let k2 = r2.map_values(|u: TokenDataView| u.kind);
        assert(k1 == k2);
        let m1 = (seq![t1] + r1).map_values(|u: TokenDataView| u.kind);
        let m2 = (seq![t] + r2).map_values(|u: TokenDataView| u.kind);
        assert(k1.len() == r1.len() && k2.len() == r2.len());
        assert forall|i: int| 0 <= i < m1.len() implies m1[i] == m2[i] by {
            if i > 0 {
                assert((seq![t1] + r1)[i] == r1[i - 1]);
                assert((seq![t] + r2)[i] == r2[i - 1]);
                assert(k1[i - 1] == k2[i - 1]);
            }
        }
        assert(m1 =~= m2);
    }
}

/// Lexing the lexemes of a source that lexes, each followed by a space,
/// gives tokens of the same kinds: the text rebuilt from the tokens' own
/// spellings lexes as the source did, comments and layout aside.
pub proof fn lemma_relex(s: Seq<char>, table: SyntaxTable)
    requires
        tokens_from(s, 0, table) is Ok,
    ensures
        token_kinds(tokens_from(joined(lexemes_from(s, 0, table)), 0, table)) == token_kinds(
            tokens_from(s, 0, table),
        ),
{
    lemma_relex_from(s, 0, table);
}

} // verus!
