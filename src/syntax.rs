//! The syntax table: configured spellings mapped to fixed token kinds.

use vstd::prelude::*;
use vstd::slice::slice_subrange;
use crate::config::SyntaxConfig;
use crate::token::{Token, TokenView};
use crate::chars::chars_of;

verus! {

/// The kind that `w` has in `entries`: the last entry spelled `w` decides.
pub open spec fn entry_kind(entries: Seq<(Vec<char>, Token)>, w: Seq<char>) -> Option<TokenView>
    decreases entries.len(),
{
    if entries.len() == 0 {
        None
    } else if entries.last().0@ == w {
        Some(entries.last().1@)
    } else {
        entry_kind(entries.drop_last(), w)
    }
}

/// A mapping from spellings to token kinds; a spelling entered again
/// replaces what it stood for.
pub struct SyntaxTable {
    entries: Vec<(Vec<char>, Token)>,
}

impl SyntaxTable {
    /// The kind that the word `w` stands for, if any.
    pub closed spec fn kind_of(&self, w: Seq<char>) -> Option<TokenView> {
        entry_kind(self.entries@, w)
    }

    /// The table that maps no word.
    pub fn new() -> (r: SyntaxTable)
        ensures
            forall|w: Seq<char>| r.kind_of(w) is None,
    {
        SyntaxTable { entries: Vec::new() }
    }

    /// Maps `spelling` to `kind`, replacing what it stood for before.
    pub fn insert(&mut self, spelling: &str, kind: Token)
        ensures
            forall|w: Seq<char>|
                final(self).kind_of(w) == if w == spelling@ {
                    Some(kind@)
                } else {
                    old(self).kind_of(w)
                },
    {
        let ghost before = self.entries@;
        let cs = chars_of(spelling);
        self.entries.push((cs, kind));
        assert(self.entries@.drop_last() =~= before);
    }

    /// The table of every spelling that `config` names.
    pub fn from_config(config: &SyntaxConfig) -> (r: SyntaxTable)
        ensures
            forall|w: Seq<char>| r.kind_of(w) == config.keyword_kind(w),
    {
        let mut t = SyntaxTable::new();
        t.insert(config.types.int_type.as_str(), Token::IntType);
        t.insert(config.types.big_int_type.as_str(), Token::BigIntType);
        t.insert(config.types.string_type.as_str(), Token::StringType);
        t.insert(config.types.bool_type.as_str(), Token::BoolType);
        t.insert(config.types.float_type.as_str(), Token::FloatType);
        t.insert(config.types.double_type.as_str(), Token::DoubleType);
        t.insert(config.types.void_type.as_str(), Token::VoidType);
        t.insert(config.types.char_type.as_str(), Token::CharType);
        t.insert(config.keywords.if_keyword.as_str(), Token::If);
        t.insert(config.keywords.else_keyword.as_str(), Token::Else);
        t.insert(config.keywords.while_keyword.as_str(), Token::While);
        t.insert(config.keywords.for_keyword.as_str(), Token::For);
        t.insert(config.keywords.switch_keyword.as_str(), Token::Switch);
        t.insert(config.keywords.case_keyword.as_str(), Token::Case);
        t.insert(config.keywords.default_keyword.as_str(), Token::Default);
        t.insert(config.keywords.function_keyword.as_str(), Token::Function);
        t.insert(config.keywords.return_keyword.as_str(), Token::Return);
        t.insert(config.literals.true_literal.as_str(), Token::BoolLiteral(true));
        t.insert(config.literals.false_literal.as_str(), Token::BoolLiteral(false));
        t
    }

    /// The kind that the characters `text[start..end]` stand for, if any.
    pub fn lookup(&self, text: &[char], start: usize, end: usize) -> (r: Option<Token>)
        requires
            start <= end <= text@.len(),
        ensures
            match r {
                Some(k) => self.kind_of(text@.subrange(start as int, end as int)) == Some(k@),
                None => self.kind_of(text@.subrange(start as int, end as int)) is None,
            },
    {
        let ghost w = text@.subrange(start as int, end as int);
        let word = slice_subrange(text, start, end);
        let mut i = self.entries.len();
        assert(self.entries@.take(i as int) =~= self.entries@);
        while i > 0
            invariant
                i <= self.entries@.len(),
                word@ == w,
                w == text@.subrange(start as int, end as int),
                entry_kind(self.entries@.take(i as int), w) == self.kind_of(w),
            decreases i,
        {
            assert(self.entries@.take(i as int).drop_last() =~= self.entries@.take(i - 1));
            assert(self.entries@.take(i as int).last() == self.entries@[i - 1]);
            if same_chars(self.entries[i - 1].0.as_slice(), word) {
                let k = self.entries[i - 1].1.duplicate();
                assert(self.entries@[i - 1].0@ == w);
                assert(entry_kind(self.entries@.take(i as int), w) == Some(k@));
                return Some(k);
            }
            i = i - 1;
        }
        None
    }
}

/// Whether `a` and `b` hold the same characters.
fn same_chars(a: &[char], b: &[char]) -> (r: bool)
    ensures
        r == (a@ == b@),
{
    if a.len() != b.len() {
        return false;
    }
    let mut i: usize = 0;
    while i < a.len()
        invariant
            a@.len() == b@.len(),
            i <= a@.len(),
            forall|j: int| 0 <= j < i ==> a@[j] == b@[j],
        decreases a@.len() - i,
    {
        if a[i] != b[i] {
            return false;
        }
        i = i + 1;
    }
    assert(a@ =~= b@);
    true
}

} // verus!
