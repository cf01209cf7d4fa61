//! Statements, places and errors in words.
use super::ast::{stmts_view, ExprView, Expression, Statement, StmtView};
use super::error::{RenderFault, TemplusError};
use super::lexer::Span;
use vstd::prelude::*;
use vstd::string::StringExecFns;

verus! {

/// The numeral of a digit.
pub open spec fn digit_text(d: nat) -> Seq<char> {
    if d == 0 {
        "0"@
    } else if d == 1 {
        "1"@
    } else if d == 2 {
        "2"@
    } else if d == 3 {
        "3"@
    } else if d == 4 {
        "4"@
    } else if d == 5 {
        "5"@
    } else if d == 6 {
        "6"@
    } else if d == 7 {
        "7"@
    } else if d == 8 {
        "8"@
    } else {
        "9"@
    }
}

/// The numeral of `n` in base ten, without leading zeros.
pub open spec fn number_text(n: nat) -> Seq<char>
    decreases n,
{
    if n < 10 {
        digit_text(n)
    } else {
        number_text(n / 10) + digit_text(n % 10)
    }
}

/// How a place is written: the line, a colon, the column.
pub open spec fn span_text(at: Span) -> Seq<char> {
    number_text(at.current_line as nat) + ":"@ + number_text(at.current_column as nat)
}

/// What is said of a failed render call.
pub open spec fn fault_text(fault: RenderFault) -> Seq<char> {
    match fault {
        RenderFault::TemplateNotFound => "template not found"@,
        RenderFault::BaseNotFound => "base template not found"@,
        RenderFault::ImportNotFound => "Cannot import non existing template"@,
        RenderFault::MissingKey => "var not found"@,
        RenderFault::NotText => "var not stringable"@,
        RenderFault::MalformedCondition => "if statements require a variable on the left"@,
        RenderFault::NotComparable => "value cannot be compared"@,
        RenderFault::TypeMismatch => "comparing values of different types"@,
        RenderFault::UnsupportedOperator => "compare can only be eq or neq"@,
        RenderFault::NotAnInteger => "number is no 64-bit integer"@,
        RenderFault::InvalidCount => "range literal required a valid number"@,
        RenderFault::NotAnArray => "cannot range over non array"@,
        RenderFault::InvalidSource => "Can only range over vars or numbers"@,
        RenderFault::TooDeep => "templates are nested too deep"@,
    }
}

/// How an error is written.
pub open spec fn error_text(e: TemplusError) -> Seq<char> {
    match e {
        TemplusError::LexerError(_, at) => "Lexer error at: "@ + span_text(at),
        TemplusError::ParserError(_, at) => "Parser error at: "@ + span_text(at),
        TemplusError::ConfigurationError => "File contains blocks outside of templates"@,
        TemplusError::RenderError(fault) => fault_text(fault),
        TemplusError::UnclosedBlock(_) => "Unclosed block"@,
    }
}

/// How an expression is written: by its kind.
pub open spec fn expr_text(e: ExprView) -> Seq<char> {
    match e {
        ExprView::Variable(_) => "[var]"@,
        ExprView::Literal(_) => "[lit]"@,
        ExprView::If(_, _) => "[if]"@,
        ExprView::Range(_, _) => "[range]"@,
    }
}

/// How a statement is written: its kind and name in brackets, and after a
/// block and a template their statements and a newline.
pub open spec fn stmt_text(s: StmtView) -> Seq<char>
    decreases s, 0nat,
{
    match s {
        StmtView::Expression(e) => "("@ + expr_text(e) + ")"@,
        StmtView::Block(name, body) => "(block:"@ + name + ")"@ + stmts_text(body) + "\n"@,
        StmtView::Define(name, _, body) => "(define:"@ + name + ")"@ + stmts_text(body) + "\n"@,
        StmtView::Import(name) => "(import:"@ + name + ")"@,
    }
}

/// How a list of statements is written: one after the other.
pub open spec fn stmts_text(body: Seq<StmtView>) -> Seq<char>
    decreases body, 1nat,
{
    if body.len() == 0 {
        Seq::empty()
    } else {
        stmt_text(body[0]) + stmts_text(body.drop_first())
    }
}

/// The numeral of the digit `d`.
fn digit(d: usize) -> (r: &'static str)
    requires
        d < 10,
    ensures
        r@ == digit_text(d as nat),
{
    if d == 0 {
        "0"
    } else if d == 1 {
        "1"
    } else if d == 2 {
        "2"
    } else if d == 3 {
        "3"
    } else if d == 4 {
        "4"
    } else if d == 5 {
        "5"
    } else if d == 6 {
        "6"
    } else if d == 7 {
        "7"
    } else if d == 8 {
        "8"
    } else {
        "9"
    }
}

/// The numeral of `n` in base ten.
pub fn number(n: usize) -> (r: String)
    ensures
        r@ == number_text(n as nat),
    decreases n,
{
    if n < 10 {
        String::from_str(digit(n))
    } else {
        let mut text = number(n / 10);
        text.append(digit(n % 10));
        text
    }
}

impl Span {
    /// The place as `line:column`.
    pub fn describe(&self) -> (r: String)
        ensures
            r@ == span_text(*self),
    {
        let mut text = number(self.current_line);
        text.append(":");
        text.append(number(self.current_column).as_str());
        text
    }
}

impl RenderFault {
    /// What is said of the fault.
    pub fn describe(&self) -> (r: &'static str)
        ensures
            r@ == fault_text(*self),
    {
        match self {
            RenderFault::TemplateNotFound => "template not found",
            RenderFault::BaseNotFound => "base template not found",
            RenderFault::ImportNotFound => "Cannot import non existing template",
            RenderFault::MissingKey => "var not found",
            RenderFault::NotText => "var not stringable",
            RenderFault::MalformedCondition => "if statements require a variable on the left",
            RenderFault::NotComparable => "value cannot be compared",
            RenderFault::TypeMismatch => "comparing values of different types",
            RenderFault::UnsupportedOperator => "compare can only be eq or neq",
            RenderFault::NotAnInteger => "number is no 64-bit integer",
            RenderFault::InvalidCount => "range literal required a valid number",
            RenderFault::NotAnArray => "cannot range over non array",
            RenderFault::InvalidSource => "Can only range over vars or numbers",
            RenderFault::TooDeep => "templates are nested too deep",
        }
    }
}

impl TemplusError {
    /// The error in words, with the place where there is one.
    pub fn describe(&self) -> (r: String)
        ensures
            r@ == error_text(*self),
    {
        match self {
            TemplusError::LexerError(_, at) => {
                let mut text = String::from_str("Lexer error at: ");
                text.append(at.describe().as_str());
                text
            },
            TemplusError::ParserError(_, at) => {
                let mut text = String::from_str("Parser error at: ");
                text.append(at.describe().as_str());
                text
            },
            TemplusError::ConfigurationError => String::from_str(
                "File contains blocks outside of templates",
            ),
            TemplusError::RenderError(fault) => String::from_str(fault.describe()),
            TemplusError::UnclosedBlock(_) => String::from_str("Unclosed block"),
        }
    }
}

impl Expression {
    /// The kind of the expression, in brackets.
    pub fn describe(&self) -> (r: &'static str)
        ensures
            r@ == expr_text(self@),
    {
        match self {
            Expression::Variable(_) => "[var]",
            Expression::Literal(_) => "[lit]",
            Expression::If(_, _) => "[if]",
            Expression::Range(_, _) => "[range]",
        }
    }
}

/// Writes the statements of `body` one after the other.
fn describe_all(body: &Vec<Statement>) -> (r: String)
    ensures
        r@ == stmts_text(stmts_view(body@)),
    decreases body, 1nat,
{
    let ghost all = stmts_view(body@);
    let mut text = String::new();
    let mut i: usize = 0;
    assert(all.skip(0) =~= all);
    while i < body.len()
        invariant
            i <= body@.len(),
            all == stmts_view(body@),
            text@ + stmts_text(all.skip(i as int)) == stmts_text(all),
        decreases body@.len() - i,
    {
        let ghost rest = all.skip(i as int);
        assert(rest.drop_first() =~= all.skip(i + 1));
        let piece = body[i].describe();
        assert((text@ + piece@) + stmts_text(all.skip(i + 1)) =~= text@ + (piece@ + stmts_text(
            all.skip(i + 1),
        )));
        text.append(piece.as_str());
        i += 1;
    }
    text
}

impl Statement {
    /// The statement with the statements inside it, by kind and name.
    pub fn describe(&self) -> (r: String)
        ensures
            r@ == stmt_text(self@),
        decreases self, 0nat,
    {
        match self {
            Statement::Expression(expr) => {
                let mut text = String::from_str("(");
                text.append(expr.describe());
                text.append(")");
                text
            },
            Statement::Block(name, statements) => {
                let mut text = String::from_str("(block:");
                text.append(name.as_str());
                text.append(")");
                text.append(describe_all(statements).as_str());
                text.append("\n");
                text
            },
            Statement::Define(name, _, statements) => {
                let mut text = String::from_str("(define:");
                text.append(name.as_str());
                text.append(")");
                text.append(describe_all(statements).as_str());
                text.append("\n");
                text
            },
            Statement::Import(name) => {
                let mut text = String::from_str("(import:");
                text.append(name.as_str());
                text.append(")");
                text
            },
        }
    }
}

} // verus!
