//! The configuration records: the spellings of the language's keywords and
//! the compiler's own identification.

use vstd::prelude::*;
use vstd::string::StringExecFns;
use crate::token::TokenView;

verus! {

/// The compiler's name, executable name, source-file extension and version.
pub struct CompilerConfig {
    pub name: String,
    pub executable_name: String,
    pub extension: String,
    pub version: String,
}

/// The configured spellings of the language's words.
pub struct SyntaxConfig {
    pub types: Types,
    pub keywords: Keywords,
    pub literals: Literals,
}

/// Spellings of the eight type keywords.
pub struct Types {
    pub int_type: String,
    pub big_int_type: String,
    pub float_type: String,
    pub double_type: String,
    pub string_type: String,
    pub bool_type: String,
    pub char_type: String,
    pub void_type: String,
}

/// Spellings of the control and function keywords.
pub struct Keywords {
    pub if_keyword: String,
    pub else_keyword: String,
    pub while_keyword: String,
    pub for_keyword: String,
    pub switch_keyword: String,
    pub case_keyword: String,
    pub default_keyword: String,
    pub function_keyword: String,
    pub return_keyword: String,
}

/// Spellings of the two boolean literals.
pub struct Literals {
    pub true_literal: String,
    pub false_literal: String,
}

impl SyntaxConfig {
    /// The token kind that the word `w` stands for under this configuration,
    /// if any. Where two words are spelled alike, the one further down this
    /// list wins: literals over function and control keywords, those over
    /// type keywords.
    pub open spec fn keyword_kind(&self, w: Seq<char>) -> Option<TokenView> {
        if w == self.literals.false_literal@ {
            Some(TokenView::BoolLiteral(false))
        } else if w == self.literals.true_literal@ {
            Some(TokenView::BoolLiteral(true))
        } else if w == self.keywords.return_keyword@ {
            Some(TokenView::Return)
        } else if w == self.keywords.function_keyword@ {
            Some(TokenView::Function)
        } else if w == self.keywords.default_keyword@ {
            Some(TokenView::Default)
        } else if w == self.keywords.case_keyword@ {
            Some(TokenView::Case)
        } else if w == self.keywords.switch_keyword@ {
            Some(TokenView::Switch)
        } else if w == self.keywords.for_keyword@ {
            Some(TokenView::For)
        } else if w == self.keywords.while_keyword@ {
            Some(TokenView::While)
        } else if w == self.keywords.else_keyword@ {
            Some(TokenView::Else)
        } else if w == self.keywords.if_keyword@ {
            Some(TokenView::If)
        } else if w == self.types.char_type@ {
            Some(TokenView::CharType)
        } else if w == self.types.void_type@ {
            Some(TokenView::VoidType)
        } else if w == self.types.double_type@ {
            Some(TokenView::DoubleType)
        } else if w == self.types.float_type@ {
            Some(TokenView::FloatType)
        } else if w == self.types.bool_type@ {
            Some(TokenView::BoolType)
        } else if w == self.types.string_type@ {
            Some(TokenView::StringType)
        } else if w == self.types.big_int_type@ {
            Some(TokenView::BigIntType)
        } else if w == self.types.int_type@ {
            Some(TokenView::IntType)
        } else {
            None
        }
    }

    /// The customary spellings: `int`, `bigint`, `float`, `double`, `string`,
    /// `bool`, `char`, `void`, `if`, `else`, `while`, `for`, `switch`, `case`,
    /// `default`, `function`, `return`, `true` and `false`.
    pub fn standard() -> (r: SyntaxConfig)
        ensures
            r.types.int_type@ == "int"@,
            r.types.big_int_type@ == "bigint"@,
            r.types.float_type@ == "float"@,
            r.types.double_type@ == "double"@,
            r.types.string_type@ == "string"@,
            r.types.bool_type@ == "bool"@,
            r.types.char_type@ == "char"@,
            r.types.void_type@ == "void"@,
            r.keywords.if_keyword@ == "if"@,
            r.keywords.else_keyword@ == "else"@,
            r.keywords.while_keyword@ == "while"@,
            r.keywords.for_keyword@ == "for"@,
            r.keywords.switch_keyword@ == "switch"@,
            r.keywords.case_keyword@ == "case"@,
            r.keywords.default_keyword@ == "default"@,
            r.keywords.function_keyword@ == "function"@,
            r.keywords.return_keyword@ == "return"@,
            r.literals.true_literal@ == "true"@,
            r.literals.false_literal@ == "false"@,
    {
        SyntaxConfig {
            types: Types {
                int_type: String::from_str("int"),
                big_int_type: String::from_str("bigint"),
                float_type: String::from_str("float"),
                double_type: String::from_str("double"),
                string_type: String::from_str("string"),
                bool_type: String::from_str("bool"),
                char_type: String::from_str("char"),
                void_type: String::from_str("void"),
            },
            keywords: Keywords {
                if_keyword: String::from_str("if"),
                else_keyword: String::from_str("else"),
                while_keyword: String::from_str("while"),
                for_keyword: String::from_str("for"),
                switch_keyword: String::from_str("switch"),
                case_keyword: String::from_str("case"),
                default_keyword: String::from_str("default"),
                function_keyword: String::from_str("function"),
                return_keyword: String::from_str("return"),
            },
            literals: Literals {
                true_literal: String::from_str("true"),
                false_literal: String::from_str("false"),
            },
        }
    }
}

impl TokenView {
    /// Whether configuration can give this kind a spelling: a type keyword,
    /// a control or function keyword, or a boolean literal.
    pub open spec fn is_configurable(self) -> bool {
        ||| self.is_type_keyword()
        ||| self is If
        ||| self is Else
        ||| self is While
        ||| self is For
        ||| self is Switch
        ||| self is Case
        ||| self is Default
        ||| self is Function
        ||| self is Return
        ||| self is BoolLiteral
    }
}

/// Whatever the configuration, a word it spells stands for exactly one
/// kind, and that kind is a keyword or a boolean literal: never an operator,
/// a delimiter, an identifier, a numeric or text literal, or end of input.
pub proof fn lemma_configured_kinds(config: SyntaxConfig, w: Seq<char>)
    ensures
        config.keyword_kind(w) matches Some(k) ==> k.is_configurable(),
{
}

} // verus!
