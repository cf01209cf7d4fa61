//! The tokens of the directive language.
use crate::text::same_bytes;
use vstd::prelude::*;

verus! {

/// One lexical unit of a template source.
#[derive(Debug, Clone, PartialEq, Eq)]
pub enum Token {
    /// A run of markup between directives, trimmed at both ends.
    Template(String),
    /// The inside of a quoted string, or a run of digits; not yet typed.
    Literal(String),
    /// A `.name` reference into the context; holds the text after the dot.
    Var(String),
    Define,
    Extends,
    Import,
    Range,
    Block,
    If,
    Else,
    End,
    SetKeyword,
    /// `==`
    Eq,
    /// `!=`
    Neq,
    /// `>=`
    Gte,
    /// `>`
    Gt,
    /// `<=`
    Lte,
    /// `<`
    Lt,
    /// `&&`
    And,
    /// `||`
    Or,
    /// `=`
    Assign,
    /// `{{`
    CodeStart,
    /// `}}`
    CodeEnd,
}

/// The mathematical value of a [`Token`]: the same variants, with text as a
/// sequence of characters.
pub ghost enum TokenView {
    Template(Seq<char>),
    Literal(Seq<char>),
    Var(Seq<char>),
    Define,
    Extends,
    Import,
    Range,
    Block,
    If,
    Else,
    End,
    SetKeyword,
    Eq,
    Neq,
    Gte,
    Gt,
    Lte,
    Lt,
    And,
    Or,
    Assign,
    CodeStart,
    CodeEnd,
}

impl View for Token {
    type V = TokenView;

    open spec fn view(&self) -> TokenView {
        match self {
            Token::Template(t) => TokenView::Template(t@),
            Token::Literal(t) => TokenView::Literal(t@),
            Token::Var(t) => TokenView::Var(t@),
            Token::Define => TokenView::Define,
            Token::Extends => TokenView::Extends,
            Token::Import => TokenView::Import,
            Token::Range => TokenView::Range,
            Token::Block => TokenView::Block,
            Token::If => TokenView::If,
            Token::Else => TokenView::Else,
            Token::End => TokenView::End,
            Token::SetKeyword => TokenView::SetKeyword,
            Token::Eq => TokenView::Eq,
            Token::Neq => TokenView::Neq,
            Token::Gte => TokenView::Gte,
            Token::Gt => TokenView::Gt,
            Token::Lte => TokenView::Lte,
            Token::Lt => TokenView::Lt,
            Token::And => TokenView::And,
            Token::Or => TokenView::Or,
            Token::Assign => TokenView::Assign,
            Token::CodeStart => TokenView::CodeStart,
            Token::CodeEnd => TokenView::CodeEnd,
        }
    }
}

/// The fixed spellings of the directive language: which keyword or operator
/// the bytes `word` spell, if any. Spellings are matched whole and in lower
/// case.
pub open spec fn keyword(word: Seq<u8>) -> Option<TokenView> {
    if word == [0x64u8, 0x65u8, 0x66u8, 0x69u8, 0x6eu8, 0x65u8]@ {
        Some(TokenView::Define)  // define
    } else if word == [0x65u8, 0x78u8, 0x74u8, 0x65u8, 0x6eu8, 0x64u8, 0x73u8]@ {
        Some(TokenView::Extends)  // extends
    } else if word == [0x62u8, 0x6cu8, 0x6fu8, 0x63u8, 0x6bu8]@ {
        Some(TokenView::Block)  // block
    } else if word == [0x69u8, 0x6du8, 0x70u8, 0x6fu8, 0x72u8, 0x74u8]@ {
        Some(TokenView::Import)  // import
    } else if word == [0x72u8, 0x61u8, 0x6eu8, 0x67u8, 0x65u8]@ {
        Some(TokenView::Range)  // range
    } else if word == [0x65u8, 0x6cu8, 0x73u8, 0x65u8]@ {
        Some(TokenView::Else)  // else
    } else if word == [0x69u8, 0x66u8]@ {
        Some(TokenView::If)  // if
    } else if word == [0x65u8, 0x6eu8, 0x64u8]@ {
        Some(TokenView::End)  // end
    } else if word == [0x73u8, 0x65u8, 0x74u8]@ {
        Some(TokenView::SetKeyword)  // set
    } else if word == [0x3du8]@ {
        Some(TokenView::Assign)  // =
    } else if word == [0x3du8, 0x3du8]@ {
        Some(TokenView::Eq)  // ==
    } else if word == [0x21u8, 0x3du8]@ {
        Some(TokenView::Neq)  // !=
    } else if word == [0x3eu8, 0x3du8]@ {
        Some(TokenView::Gte)  // >=
    } else if word == [0x3eu8]@ {
        Some(TokenView::Gt)  // >
    } else if word == [0x3cu8, 0x3du8]@ {
        Some(TokenView::Lte)  // <=
    } else if word == [0x3cu8]@ {
        Some(TokenView::Lt)  // <
    } else if word == [0x26u8, 0x26u8]@ {
        Some(TokenView::And)  // &&
    } else if word == [0x7cu8, 0x7cu8]@ {
        Some(TokenView::Or)  // ||
    } else {
        None
    }
}

impl Token {
    /// Recognises a keyword or an operator from its exact spelling.
    pub fn try_from_bslice(bslice: &[u8]) -> (r: Option<Token>)
        ensures
            match r {
                Some(t) => keyword(bslice@) == Some(t@),
                None => keyword(bslice@) is None,
            },
    {
        if same_bytes(bslice, &[0x64, 0x65, 0x66, 0x69, 0x6e, 0x65]) {
            Some(Token::Define)
        } else if same_bytes(bslice, &[0x65, 0x78, 0x74, 0x65, 0x6e, 0x64, 0x73]) {
            Some(Token::Extends)
        } else if same_bytes(bslice, &[0x62, 0x6c, 0x6f, 0x63, 0x6b]) {
            Some(Token::Block)
        } else if same_bytes(bslice, &[0x69, 0x6d, 0x70, 0x6f, 0x72, 0x74]) {
            Some(Token::Import)
        } else if same_bytes(bslice, &[0x72, 0x61, 0x6e, 0x67, 0x65]) {
            Some(Token::Range)
        } else if same_bytes(bslice, &[0x65, 0x6c, 0x73, 0x65]) {
            Some(Token::Else)
        } else if same_bytes(bslice, &[0x69, 0x66]) {
            Some(Token::If)
        } else if same_bytes(bslice, &[0x65, 0x6e, 0x64]) {
            Some(Token::End)
        } else if same_bytes(bslice, &[0x73, 0x65, 0x74]) {
            Some(Token::SetKeyword)
        } else if same_bytes(bslice, &[0x3d]) {
            Some(Token::Assign)
        } else if same_bytes(bslice, &[0x3d, 0x3d]) {
            Some(Token::Eq)
        } else if same_bytes(bslice, &[0x21, 0x3d]) {
            Some(Token::Neq)
        } else if same_bytes(bslice, &[0x3e, 0x3d]) {
            Some(Token::Gte)
        } else if same_bytes(bslice, &[0x3e]) {
            Some(Token::Gt)
        } else if same_bytes(bslice, &[0x3c, 0x3d]) {
            Some(Token::Lte)
        } else if same_bytes(bslice, &[0x3c]) {
            Some(Token::Lt)
        } else if same_bytes(bslice, &[0x26, 0x26]) {
            Some(Token::And)
        } else if same_bytes(bslice, &[0x7c, 0x7c]) {
            Some(Token::Or)
        } else {
            None
        }
    }
}

} // verus!
