//! The statements and expressions of a parsed template.
use vstd::prelude::*;

verus! {

/// The comparison operators of `if`.
#[derive(Debug, Clone, Copy, PartialEq, Eq)]
pub enum Op {
    Eq,
    Neq,
    Gt,
    Gte,
    Lt,
    Lte,
}

/// The logical connectives. The lexer knows them; no statement uses them.
#[derive(Debug, Clone, Copy, PartialEq, Eq)]
pub enum BinOp {
    And,
    Or,
}

/// What a statement can write out or branch on.
#[derive(Debug, PartialEq, Eq)]
pub enum Expression {
    /// A field of the context, by name.
    Variable(String),
    /// Text as it stands in the source.
    Literal(String),
    /// A condition with the statements that it guards.
    If(IfExpr, Vec<Statement>),
    /// What to iterate over, with the statements to repeat.
    Range(Box<Expression>, Vec<Statement>),
}

/// One node of a parsed template.
#[derive(Debug, PartialEq, Eq)]
pub enum Statement {
    Expression(Expression),
    /// A named part that a template extending this one can replace.
    Block(String, Vec<Statement>),
    /// A template: its name, the template it extends if any, and its body.
    Define(String, Option<String>, Vec<Statement>),
    /// The template of that name, rendered in place.
    Import(String),
}

/// The condition of an `if`: one operand tested for truth, or two operands
/// compared.
#[derive(Debug, PartialEq, Eq)]
pub struct IfExpr {
    pub left: Box<Expression>,
    pub right: Option<Box<Expression>>,
    pub op: Option<Op>,
}

/// A tree of nodes without content.
#[derive(Debug)]
pub struct PtreeNode {
    pub children: Vec<PtreeNode>,
}

/// The mathematical value of an [`Expression`].
pub ghost enum ExprView {
    Variable(Seq<char>),
    Literal(Seq<char>),
    If(CondView, Seq<StmtView>),
    Range(Box<ExprView>, Seq<StmtView>),
}

/// The mathematical value of a [`Statement`].
pub ghost enum StmtView {
    Expression(ExprView),
    Block(Seq<char>, Seq<StmtView>),
    Define(Seq<char>, Option<Seq<char>>, Seq<StmtView>),
    Import(Seq<char>),
}

/// The mathematical value of an [`IfExpr`].
pub ghost struct CondView {
    pub left: Box<ExprView>,
    pub right: Option<Box<ExprView>>,
    pub op: Option<Op>,
}

/// The value of an expression.
pub open spec fn expr_view(e: Expression) -> ExprView
    decreases e, 0nat,
{
    match e {
        Expression::Variable(name) => ExprView::Variable(name@),
        Expression::Literal(text) => ExprView::Literal(text@),
        Expression::If(cond, body) => ExprView::If(cond_view(cond), stmts_view(body@)),
        Expression::Range(source, body) => ExprView::Range(
            Box::new(expr_view(*source)),
            stmts_view(body@),
        ),
    }
}

/// The value of a condition.
pub open spec fn cond_view(c: IfExpr) -> CondView
    decreases c, 0nat,
{
    CondView {
        left: Box::new(expr_view(*c.left)),
        right: match c.right {
            Some(r) => Some(Box::new(expr_view(*r))),
            None => None,
        },
        op: c.op,
    }
}

/// The value of a statement.
pub open spec fn stmt_view(s: Statement) -> StmtView
    decreases s, 0nat,
{
    match s {
        Statement::Expression(e) => StmtView::Expression(expr_view(e)),
        Statement::Block(name, body) => StmtView::Block(name@, stmts_view(body@)),
        Statement::Define(name, base, body) => StmtView::Define(
            name@,
            match base {
                Some(b) => Some(b@),
                None => None,
            },
            stmts_view(body@),
        ),
        Statement::Import(name) => StmtView::Import(name@),
    }
}

/// The values of a list of statements, in order.
pub open spec fn stmts_view(s: Seq<Statement>) -> Seq<StmtView>
    decreases s, 1nat,
{
    Seq::new(
        s.len(),
        |i: int|
            if 0 <= i < s.len() {
                stmt_view(s[i])
            } else {
                arbitrary()
            },
    )
}

impl View for Expression {
    type V = ExprView;

    open spec fn view(&self) -> ExprView {
        expr_view(*self)
    }
}

impl View for Statement {
    type V = StmtView;

    open spec fn view(&self) -> StmtView {
        stmt_view(*self)
    }
}

impl View for IfExpr {
    type V = CondView;

    open spec fn view(&self) -> CondView {
        cond_view(*self)
    }
}

/// Appending a statement to a list appends its value to the list's values.
pub proof fn lemma_stmts_view_push(s: Seq<Statement>, last: Statement)
    ensures
        stmts_view(s.push(last)) == stmts_view(s).push(stmt_view(last)),
{
}

} // verus!
