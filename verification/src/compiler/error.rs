//! The errors of the library.
use super::lexer::Span;
use super::tokenizer::BlockType;
use vstd::prelude::*;

verus! {

/// Why the lexer stopped.
#[derive(Debug, Clone, Copy, PartialEq, Eq)]
pub enum LexFault {
    /// A quoted string has no closing quote before the input ends.
    UnterminatedString,
    /// The input ends inside a `{{ ... }}` directive.
    UnterminatedDirective,
    /// A word inside a directive is no keyword and no operator.
    UnknownWord,
    /// The text of a token is not valid UTF-8.
    InvalidText,
}

/// Why the parser stopped.
#[derive(Debug, Clone, Copy, PartialEq, Eq)]
pub enum ParseFault {
    /// `define`, `block` or `import` is not followed by a quoted name.
    MissingName,
    /// `extends` is not followed by a quoted name.
    MissingBase,
    /// `range` is followed by neither a variable nor a literal.
    MissingSource,
    /// An operand of `if` is neither a variable nor a literal.
    MissingOperand,
    /// The left operand of `if` is followed by neither `}}` nor a comparison
    /// operator.
    MissingOperator,
    /// A token stands where no statement can begin.
    UnexpectedToken,
}

/// Why a render call failed.
#[derive(Debug, Clone, Copy, PartialEq, Eq)]
pub enum RenderFault {
    /// The template asked for is not in the registry.
    TemplateNotFound,
    /// The template named after `extends` is not in the registry.
    BaseNotFound,
    /// The template named after `import` is not in the registry.
    ImportNotFound,
    /// The context has no field of the name that a variable reads.
    MissingKey,
    /// A variable that is written out holds something other than a string.
    NotText,
    /// A condition has an operand that is neither a variable nor a literal,
    /// a comparison without a right operand, or a comparison whose left
    /// operand is not a variable.
    MalformedCondition,
    /// The left side of a comparison holds a value that cannot be compared.
    NotComparable,
    /// The two sides of a comparison hold values of different types.
    TypeMismatch,
    /// An ordering operator is applied to booleans or strings.
    UnsupportedOperator,
    /// A number in the context is no signed 64-bit integer.
    NotAnInteger,
    /// The literal after `range` is no integer.
    InvalidCount,
    /// `range` names a field that holds no array.
    NotAnArray,
    /// The source of `range` is neither a variable nor a literal.
    InvalidSource,
    /// Imports, extensions and block overrides are nested deeper than
    /// the renderer follows them.
    TooDeep,
}

/// Every failure of the library. Errors are values: nothing is retried, and
/// the first one ends the call that met it.
#[derive(Debug, Clone, Copy, PartialEq, Eq)]
pub enum TemplusError {
    /// The lexer stopped at the given place.
    LexerError(LexFault, Span),
    /// The parser stopped; the place is that of the directive it was reading.
    ParserError(ParseFault, Span),
    /// A document holds a top-level statement that is no `define`.
    ConfigurationError,
    /// Rendering failed.
    RenderError(RenderFault),
    /// The block splitter met a block of the given kind that is not closed.
    UnclosedBlock(BlockType),
}

} // verus!
