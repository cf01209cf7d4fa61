//! The parser: from tokens to statements.
use super::ast::{
    lemma_stmts_view_push, stmts_view, CondView, ExprView, Expression,
    IfExpr, Op, Statement, StmtView,
};
use super::error::{LexFault, ParseFault, TemplusError};
use super::lexer::{
    is_invalid_text, lemma_lexemes_are_text, lemma_lexemes_fail_as_lexer, lexeme_of, lexeme_view, lexemes, Lexeme, Lexer,
    LexerState, Span,
};
use super::tokens::{Token, TokenView};
use vstd::prelude::*;
use vstd::utf8::valid_utf8;

verus! {

/// The head of a statement that has a body: what stands before the body.
pub enum Opening {
    /// `block` with its name.
    Block(String),
    /// `define` with its name and the name after `extends`, if any.
    Define(String, Option<String>),
    /// `range` with its source.
    Range(Expression),
    /// `if` with its condition.
    If(IfExpr),
}

/// How a statement begins: what its leading tokens say, before its body, if
/// it has one, is read.
pub enum Head {
    /// A statement without a body.
    Leaf(Statement),
    /// A statement whose body follows.
    Open(Opening),
    /// `{{` or `}}`: nothing to build.
    Skip,
    /// `end`, or the end of the input: the list of statements is complete.
    End,
}

/// The mathematical value of an [`Opening`].
pub ghost enum OpeningView {
    Block(Seq<char>),
    Define(Seq<char>, Option<Seq<char>>),
    Range(ExprView),
    If(CondView),
}

/// The mathematical value of a [`Head`].
pub ghost enum HeadView {
    Leaf(StmtView),
    Open(OpeningView),
    Skip,
    End,
}

impl View for Opening {
    type V = OpeningView;

    open spec fn view(&self) -> OpeningView {
        match self {
            Opening::Block(name) => OpeningView::Block(name@),
            Opening::Define(name, base) => OpeningView::Define(
                name@,
                match base {
                    Some(b) => Some(b@),
                    None => None,
                },
            ),
            Opening::Range(source) => OpeningView::Range(source@),
            Opening::If(cond) => OpeningView::If(cond@),
        }
    }
}

impl View for Head {
    type V = HeadView;

    open spec fn view(&self) -> HeadView {
        match self {
            Head::Leaf(s) => HeadView::Leaf(s@),
            Head::Open(opening) => HeadView::Open(opening@),
            Head::Skip => HeadView::Skip,
            Head::End => HeadView::End,
        }
    }
}

/// The statement that begins with `opening` and has the body `body`.
pub open spec fn close(opening: OpeningView, body: Seq<StmtView>) -> StmtView {
    match opening {
        OpeningView::Block(name) => StmtView::Block(name, body),
        OpeningView::Define(name, base) => StmtView::Define(name, base, body),
        OpeningView::Range(source) => StmtView::Expression(
            ExprView::Range(Box::new(source), body),
        ),
        OpeningView::If(cond) => StmtView::Expression(ExprView::If(cond, body)),
    }
}

/// The name that the first of `toks` holds, where it is a literal. A lexer
/// error is handed on; anything else, and the end of the input, is `fault`
/// at `span`.
pub open spec fn expect_name(toks: Seq<Lexeme>, fault: ParseFault, span: Span) -> Result<
    Seq<char>,
    TemplusError,
> {
    if toks.len() == 0 {
        Err(TemplusError::ParserError(fault, span))
    } else {
        match toks[0] {
            Ok((TokenView::Literal(name), _)) => Ok(name),
            Err(e) => Err(e),
            _ => Err(TemplusError::ParserError(fault, span)),
        }
    }
}

/// The operand that the first of `toks` holds, where it is a variable or a
/// literal. A lexer error is handed on; anything else, and the end of the
/// input, is `fault` at `span`.
pub open spec fn expect_operand(toks: Seq<Lexeme>, fault: ParseFault, span: Span) -> Result<
    ExprView,
    TemplusError,
> {
    if toks.len() == 0 {
        Err(TemplusError::ParserError(fault, span))
    } else {
        match toks[0] {
            Ok((TokenView::Literal(text), _)) => Ok(ExprView::Literal(text)),
            Ok((TokenView::Var(name), _)) => Ok(ExprView::Variable(name)),
            Err(e) => Err(e),
            _ => Err(TemplusError::ParserError(fault, span)),
        }
    }
}

/// The comparison operator that `token` stands for, if any.
pub open spec fn operator(token: TokenView) -> Option<Op> {
    match token {
        TokenView::Eq => Some(Op::Eq),
        TokenView::Neq => Some(Op::Neq),
        TokenView::Gt => Some(Op::Gt),
        TokenView::Gte => Some(Op::Gte),
        TokenView::Lt => Some(Op::Lt),
        TokenView::Lte => Some(Op::Lte),
        _ => None,
    }
}

/// The head of `define`, from the tokens after the keyword, with the number
/// of tokens read. The name is followed by `extends` and the name of the
/// base, or by nothing that belongs to the head.
pub open spec fn define_head(toks: Seq<Lexeme>, span: Span) -> Result<
    (OpeningView, nat),
    TemplusError,
> {
    match expect_name(toks, ParseFault::MissingName, span) {
        Err(e) => Err(e),
        Ok(name) => if toks.len() > 1 && toks[1] matches Ok((TokenView::Extends, _)) {
            match expect_name(toks.skip(2), ParseFault::MissingBase, span) {
                Err(e) => Err(e),
                Ok(base) => Ok((OpeningView::Define(name, Some(base)), 3)),
            }
        } else {
            Ok((OpeningView::Define(name, None), 1))
        },
    }
}

/// The head of `if`, from the tokens after the keyword, with the number of
/// tokens read: an operand and `}}`, or an operand, a comparison operator
/// and a second operand.
pub open spec fn if_head(toks: Seq<Lexeme>, span: Span) -> Result<(OpeningView, nat), TemplusError> {
    match expect_operand(toks, ParseFault::MissingOperand, span) {
        Err(e) => Err(e),
        Ok(left) => if toks.len() < 2 {
            Err(TemplusError::ParserError(ParseFault::MissingOperator, span))
        } else {
            match toks[1] {
                Err(e) => Err(e),
                Ok((TokenView::CodeEnd, _)) => Ok(
                    (OpeningView::If(CondView { left: Box::new(left), right: None, op: None }), 2),
                ),
                Ok((token, _)) => match operator(token) {
                    None => Err(TemplusError::ParserError(ParseFault::MissingOperator, span)),
                    Some(op) => match expect_operand(
                        toks.skip(2),
                        ParseFault::MissingOperand,
                        span,
                    ) {
                        Err(e) => Err(e),
                        Ok(right) => Ok(
                            (
                                OpeningView::If(
                                    CondView {
                                        left: Box::new(left),
                                        right: Some(Box::new(right)),
                                        op: Some(op),
                                    },
                                ),
                                3,
                            ),
                        ),
                    },
                },
            }
        },
    }
}

/// The head of the statement with which `toks` begin, with the number of
/// tokens that it takes. That number is 0 only at the end of the input.
pub open spec fn read_head(toks: Seq<Lexeme>) -> Result<(HeadView, nat), TemplusError> {
    if toks.len() == 0 {
        Ok((HeadView::End, 0))
    } else {
        match toks[0] {
            Err(e) => Err(e),
            Ok((token, span)) => {
                let rest = toks.drop_first();
                match token {
                    TokenView::CodeStart | TokenView::CodeEnd => Ok((HeadView::Skip, 1)),
                    TokenView::End => Ok((HeadView::End, 1)),
                    TokenView::Template(text) => Ok(
                        (HeadView::Leaf(StmtView::Expression(ExprView::Literal(text))), 1),
                    ),
                    TokenView::Var(name) => Ok(
                        (HeadView::Leaf(StmtView::Expression(ExprView::Variable(name))), 1),
                    ),
                    TokenView::Import => match expect_name(rest, ParseFault::MissingName, span) {
                        Err(e) => Err(e),
                        Ok(name) => Ok((HeadView::Leaf(StmtView::Import(name)), 2)),
                    },
                    TokenView::Block => match expect_name(rest, ParseFault::MissingName, span) {
                        Err(e) => Err(e),
                        Ok(name) => Ok((HeadView::Open(OpeningView::Block(name)), 2)),
                    },
                    TokenView::Range => match expect_operand(
                        rest,
                        ParseFault::MissingSource,
                        span,
                    ) {
                        Err(e) => Err(e),
                        Ok(source) => Ok((HeadView::Open(OpeningView::Range(source)), 2)),
                    },
                    TokenView::Define => match define_head(rest, span) {
                        Err(e) => Err(e),
                        Ok((opening, n)) => Ok((HeadView::Open(opening), n + 1)),
                    },
                    TokenView::If => match if_head(rest, span) {
                        Err(e) => Err(e),
                        Ok((opening, n)) => Ok((HeadView::Open(opening), n + 1)),
                    },
                    _ => Err(TemplusError::ParserError(ParseFault::UnexpectedToken, span)),
                }
            },
        }
    }
}

/// The outcome of parsing a list of statements: the statements or the first
/// error, and the tokens that were not read.
pub ghost struct Parsed {
    pub result: Result<Seq<StmtView>, TemplusError>,
    pub rest: Seq<Lexeme>,
}

/// `p` with the statements `done` in front of its own.
pub open spec fn after(done: Seq<StmtView>, p: Parsed) -> Parsed {
    Parsed {
        result: match p.result {
            Ok(more) => Ok(done + more),
            Err(e) => Err(e),
        },
        rest: p.rest,
    }
}

/// The grammar: the statements with which `toks` begin, up to the first
/// `end` that closes no statement among them, or to the end of the input.
/// The body of a statement is read by the same rule, so that it ends at
/// the `end` that matches the statement's head.
pub open spec fn parse_block(toks: Seq<Lexeme>) -> Parsed
    decreases toks.len(),
{
    match read_head(toks) {
        Err(e) => Parsed { result: Err(e), rest: toks },
        Ok((head, n)) => {
            let rest = toks.skip(n as int);
            if n == 0 || n > toks.len() {
                Parsed { result: Ok(Seq::empty()), rest }
            } else {
                match head {
                    HeadView::End => Parsed { result: Ok(Seq::empty()), rest },
                    HeadView::Skip => parse_block(rest),
                    HeadView::Leaf(stmt) => after(seq![stmt], parse_block(rest)),
                    HeadView::Open(opening) => {
                        let body = parse_block(rest);
                        match body.result {
                            Err(e) => Parsed { result: Err(e), rest: body.rest },
                            Ok(stmts) => if body.rest.len() <= rest.len() {
                                after(seq![close(opening, stmts)], parse_block(body.rest))
                            } else {
                                Parsed { result: Ok(seq![close(opening, stmts)]), rest: body.rest }
                            },
                        }
                    },
                }
            }
        },
    }
}

/// The statements that the tokens `toks` spell, or the first error.
pub open spec fn parse_tokens(toks: Seq<Lexeme>) -> Result<Seq<StmtView>, TemplusError> {
    parse_block(toks).result
}

/// A head takes at least one token, except at the end of the input, and no
/// more tokens than there are.
pub proof fn lemma_read_head_bounds(toks: Seq<Lexeme>)
    ensures
        read_head(toks) matches Ok((_, n)) ==> n <= toks.len() && (n == 0 <==> toks.len() == 0),
{
}

/// Parsing never leaves more tokens than it was given.
pub proof fn lemma_parse_block_rest(toks: Seq<Lexeme>)
    ensures
        parse_block(toks).rest.len() <= toks.len(),
    decreases toks.len(),
{
    match read_head(toks) {
        Err(e) => {},
        Ok((head, n)) => {
            let rest = toks.skip(n as int);
            if 0 < n <= toks.len() {
                lemma_parse_block_rest(rest);
                let body = parse_block(rest);
                if head is Open && body.result is Ok {
                    lemma_parse_block_rest(body.rest);
                }
            }
        },
    }
}

/// Whether the error `e` is among `toks`.
pub open spec fn carries(toks: Seq<Lexeme>, e: TemplusError) -> bool {
    exists|i: int| 0 <= i < toks.len() && #[trigger] toks[i] == Err::<(TokenView, Span), _>(e)
}

/// An error among the tokens from index `n` on is among the tokens.
pub proof fn lemma_carries_skip(toks: Seq<Lexeme>, n: int, e: TemplusError)
    requires
        0 <= n <= toks.len(),
        carries(toks.skip(n), e),
    ensures
        carries(toks, e),
{
    let i = choose|i: int|
        0 <= i < toks.skip(n).len() && #[trigger] toks.skip(n)[i] == Err::<(TokenView, Span), _>(e);
}

/// Where the parser cannot read a name or an operand, it reports its own
/// fault or hands on the lexer error that stands in their place.
pub proof fn lemma_expect_error(toks: Seq<Lexeme>, fault: ParseFault, span: Span)
    ensures
        expect_name(toks, fault, span) matches Err(e) ==> e is ParserError || carries(toks, e),
        expect_operand(toks, fault, span) matches Err(e) ==> e is ParserError || carries(toks, e),
{
}

/// Where the head of a statement cannot be read, the error is a fault of
/// the parser or a lexer error that is among the tokens.
pub proof fn lemma_read_head_error(toks: Seq<Lexeme>)
    ensures
        read_head(toks) matches Err(e) ==> e is ParserError || carries(toks, e),
{
    if toks.len() > 0 {
        if let Ok((token, span)) = toks[0] {
            let rest = toks.drop_first();
            lemma_expect_error(rest, ParseFault::MissingName, span);
            lemma_expect_error(rest, ParseFault::MissingSource, span);
            lemma_expect_error(rest, ParseFault::MissingOperand, span);
            if rest.len() >= 2 {
                lemma_expect_error(rest.skip(2), ParseFault::MissingBase, span);
                lemma_expect_error(rest.skip(2), ParseFault::MissingOperand, span);
            }
            if let Err(e) = read_head(toks) {
                if !(e is ParserError) {
                    if rest.len() >= 2 && carries(rest.skip(2), e) {
                        lemma_carries_skip(rest, 2, e);
                    }
                    lemma_carries_skip(toks, 1, e);
                }
            }
        }
    }
}

/// What parsing leaves is the end of what it was given, and where parsing
/// fails, the error is a fault of the parser or a lexer error that is among
/// the tokens.
pub proof fn lemma_parse_error_source(toks: Seq<Lexeme>)
    ensures
        parse_block(toks).rest.len() <= toks.len(),
        parse_block(toks).rest == toks.skip(toks.len() - parse_block(toks).rest.len()),
        parse_block(toks).result matches Err(e) ==> e is ParserError || carries(toks, e),
    decreases toks.len(),
{
    lemma_read_head_bounds(toks);
    lemma_read_head_error(toks);
    lemma_parse_block_rest(toks);
    match read_head(toks) {
        Err(e) => {},
        Ok((head, n)) => {
            let rest = toks.skip(n as int);
            if 0 < n <= toks.len() {
                lemma_parse_error_source(rest);
                lemma_parse_block_rest(rest);
                let inner = parse_block(rest);
                assert(rest.skip(rest.len() - inner.rest.len()) =~= toks.skip(
                    toks.len() - inner.rest.len(),
                ));
                if let Err(e) = inner.result {
                    if carries(rest, e) {
                        lemma_carries_skip(toks, n as int, e);
                    }
                }
                match head {
                    HeadView::Open(_) => {
                        if inner.result is Ok {
                            let more = parse_block(inner.rest);
                            lemma_parse_error_source(inner.rest);
                            lemma_parse_block_rest(inner.rest);
                            assert(inner.rest.skip(inner.rest.len() - more.rest.len()) =~= toks.skip(
                                toks.len() - more.rest.len(),
                            ));
                            if let Err(e) = more.result {
                                if carries(inner.rest, e) {
                                    lemma_carries_skip(toks, toks.len() - inner.rest.len(), e);
                                }
                            }
                        }
                    },
                    _ => {},
                }
            }
        },
    }
}

/// A source that is valid UTF-8 never fails for the text of a token:
/// whatever is cut from it between the delimiters of the language is text.
pub proof fn lemma_text_stays_text(code: Seq<u8>)
    requires
        valid_utf8(code),
    ensures
        !(parse_tokens(lexemes(code, 0, LexerState::InMarkup)) matches Err(
            TemplusError::LexerError(LexFault::InvalidText, _),
        )),
{
    let toks = lexemes(code, 0, LexerState::InMarkup);
    lemma_lexemes_are_text(code, 0, LexerState::InMarkup);
    lemma_parse_error_source(toks);
    if let Err(e) = parse_tokens(toks) {
        if carries(toks, e) {
            let i = choose|i: int|
                0 <= i < toks.len() && #[trigger] toks[i] == Err::<(TokenView, Span), _>(e);
            assert(!is_invalid_text(toks[i]));
        }
    }
}

/// Parsing a source fails with a lexer error or a parser error, and with
/// nothing else.
pub proof fn lemma_parse_fails_as_lexer_or_parser(code: Seq<u8>)
    ensures
        parse_tokens(lexemes(code, 0, LexerState::InMarkup)) matches Err(e) ==> e is LexerError
            || e is ParserError,
{
    let toks = lexemes(code, 0, LexerState::InMarkup);
    lemma_lexemes_fail_as_lexer(code, 0, LexerState::InMarkup);
    lemma_parse_error_source(toks);
    if let Err(e) = parse_tokens(toks) {
        if carries(toks, e) {
            let i = choose|i: int|
                0 <= i < toks.len() && #[trigger] toks[i] == Err::<(TokenView, Span), _>(e);
            assert(toks[i] matches Err(x) ==> x is LexerError);
        }
    }
}

/// A parser over the tokens of one source. It reads the tokens as it needs
/// them, and stops at the first error.
pub struct Parser<'a> {
    lexer: Lexer<'a>,
    peeked: Option<Result<(Token, Span), TemplusError>>,
}

/// The statement that begins with `opening` and has the body `body`.
fn finish(opening: Opening, body: Vec<Statement>) -> (s: Statement)
    ensures
        s@ == close(opening@, stmts_view(body@)),
{
    match opening {
        Opening::Block(name) => Statement::Block(name, body),
        Opening::Define(name, base) => Statement::Define(name, base, body),
        Opening::Range(source) => Statement::Expression(Expression::Range(Box::new(source), body)),
        Opening::If(cond) => Statement::Expression(Expression::If(cond, body)),
    }
}

impl<'a> Parser<'a> {
    /// The tokens that the parser has not read yet, ended by the first
    /// lexer error if there is one.
    pub closed spec fn pending(&self) -> Seq<Lexeme> {
        match self.peeked {
            Some(item) => seq![lexeme_of(item)] + self.lexer.remaining(),
            None => self.lexer.remaining(),
        }
    }

    /// A parser at the start of `code`.
    pub fn new(code: &'a [u8]) -> (r: Self)
        ensures
            r.pending() == lexemes(code@, 0, LexerState::InMarkup),
    {
        Parser { lexer: Lexer::new(code), peeked: None }
    }

    /// Takes the next token.
    fn next_token(&mut self) -> (r: Option<Result<(Token, Span), TemplusError>>)
        ensures
            lexeme_view(r) == (if old(self).pending().len() > 0 {
                Some(old(self).pending()[0])
            } else {
                None
            }),
            final(self).pending() == (if old(self).pending().len() > 0 {
                old(self).pending().drop_first()
            } else {
                old(self).pending()
            }),
            final(self).peeked is None,
    {
        match self.peeked.take() {
            Some(item) => Some(item),
            None => self.lexer.next(),
        }
    }

    /// Takes the next token, which has to be a literal, for its text.
    fn name(&mut self, fault: ParseFault, span: Span) -> (r: Result<String, TemplusError>)
        ensures
            match expect_name(old(self).pending(), fault, span) {
                Ok(name) => r matches Ok(text) && text@ == name && final(self).pending() == old(
                    self,
                ).pending().drop_first(),
                Err(e) => r == Err::<String, _>(e),
            },
    {
        match self.next_token() {
            Some(Ok((Token::Literal(name), _))) => Ok(name),
            Some(Err(e)) => Err(e),
            _ => Err(TemplusError::ParserError(fault, span)),
        }
    }

    /// Takes the next token, which has to be a variable or a literal.
    fn operand(&mut self, fault: ParseFault, span: Span) -> (r: Result<Expression, TemplusError>)
        ensures
            match expect_operand(old(self).pending(), fault, span) {
                Ok(operand) => r matches Ok(e) && e@ == operand && final(self).pending() == old(
                    self,
                ).pending().drop_first(),
                Err(e) => r matches Err(x) && x == e,
            },
    {
        match self.next_token() {
            Some(Ok((Token::Literal(text), _))) => Ok(Expression::Literal(text)),
            Some(Ok((Token::Var(name), _))) => Ok(Expression::Variable(name)),
            Some(Err(e)) => Err(e),
            _ => Err(TemplusError::ParserError(fault, span)),
        }
    }

    /// Reads what follows `define`.
    fn define(&mut self, span: Span) -> (r: Result<Opening, TemplusError>)
        ensures
            match define_head(old(self).pending(), span) {
                Ok((head, n)) => r matches Ok(h) && h@ == head && final(self).pending() == old(
                    self,
                ).pending().skip(n as int),
                Err(e) => r matches Err(x) && x == e,
            },
    {
        let name = self.name(ParseFault::MissingName, span)?;
        match self.next_token() {
            Some(Ok((Token::Extends, _))) => {
                let base = self.name(ParseFault::MissingBase, span)?;
                Ok(Opening::Define(name, Some(base)))
            },
            other => {
                self.peeked = other;
                Ok(Opening::Define(name, None))
            },
        }
    }

    /// Reads what follows `if`.
    fn condition(&mut self, span: Span) -> (r: Result<Opening, TemplusError>)
        ensures
            match if_head(old(self).pending(), span) {
                Ok((head, n)) => r matches Ok(h) && h@ == head && final(self).pending() == old(
                    self,
                ).pending().skip(n as int),
                Err(e) => r matches Err(x) && x == e,
            },
    {
        let left = self.operand(ParseFault::MissingOperand, span)?;
        let op = match self.next_token() {
            None => {
                return Err(TemplusError::ParserError(ParseFault::MissingOperator, span));
            },
            Some(Err(e)) => {
                return Err(e);
            },
            Some(Ok((Token::CodeEnd, _))) => {
                return Ok(Opening::If(IfExpr { left: Box::new(left), right: None, op: None }));
            },
            Some(Ok((Token::Eq, _))) => Op::Eq,
            Some(Ok((Token::Neq, _))) => Op::Neq,
            Some(Ok((Token::Gt, _))) => Op::Gt,
            Some(Ok((Token::Gte, _))) => Op::Gte,
            Some(Ok((Token::Lt, _))) => Op::Lt,
            Some(Ok((Token::Lte, _))) => Op::Lte,
            Some(Ok(_)) => {
                return Err(TemplusError::ParserError(ParseFault::MissingOperator, span));
            },
        };
        let right = self.operand(ParseFault::MissingOperand, span)?;
        Ok(Opening::If(IfExpr { left: Box::new(left), right: Some(Box::new(right)), op: Some(op) }))
    }

    /// Reads the head of the next statement.
    fn head(&mut self) -> (r: Result<Head, TemplusError>)
        ensures
            match read_head(old(self).pending()) {
                Ok((head, n)) => r matches Ok(h) && h@ == head && final(self).pending() == old(
                    self,
                ).pending().skip(n as int),
                Err(e) => r matches Err(x) && x == e,
            },
    {
        let (token, span) = match self.next_token() {
            None => {
                return Ok(Head::End);
            },
            Some(Err(e)) => {
                return Err(e);
            },
            Some(Ok(pair)) => pair,
        };
        match token {
            Token::CodeStart | Token::CodeEnd => Ok(Head::Skip),
            Token::End => Ok(Head::End),
            Token::Template(text) => Ok(Head::Leaf(Statement::Expression(Expression::Literal(text)))),
            Token::Var(name) => Ok(Head::Leaf(Statement::Expression(Expression::Variable(name)))),
            Token::Import => {
                let name = self.name(ParseFault::MissingName, span)?;
                Ok(Head::Leaf(Statement::Import(name)))
            },
            Token::Block => {
                let name = self.name(ParseFault::MissingName, span)?;
                Ok(Head::Open(Opening::Block(name)))
            },
            Token::Range => {
                let source = self.operand(ParseFault::MissingSource, span)?;
                Ok(Head::Open(Opening::Range(source)))
            },
            Token::Define => match self.define(span) {
                Ok(opening) => Ok(Head::Open(opening)),
                Err(e) => Err(e),
            },
            Token::If => match self.condition(span) {
                Ok(opening) => Ok(Head::Open(opening)),
                Err(e) => Err(e),
            },
            _ => Err(TemplusError::ParserError(ParseFault::UnexpectedToken, span)),
        }
    }

    /// Reads statements up to the `end` that closes them, or to the end of
    /// the input.
    pub fn parse(&mut self) -> (r: Result<Vec<Statement>, TemplusError>)
        ensures
            match r {
                Ok(stmts) => parse_block(old(self).pending()).result == Ok::<_, TemplusError>(
                    stmts_view(stmts@),
                ) && final(self).pending() == parse_block(old(self).pending()).rest,
                Err(e) => parse_block(old(self).pending()).result == Err::<Seq<StmtView>, _>(e),
            },
        decreases old(self).pending().len(),
    {
        let ghost start = self.pending();
        let mut out: Vec<Statement> = Vec::new();
        loop
            invariant
                start == old(self).pending(),
                parse_block(start) == after(stmts_view(out@), parse_block(self.pending())),
                self.pending().len() <= start.len(),
            decreases self.pending().len(),
        {
            let ghost done = stmts_view(out@);
            let head = self.head()?;
            let ghost rest = self.pending();
            match head {
                Head::End => {
                    return Ok(out);
                },
                Head::Skip => {},
                Head::Leaf(s) => {
                    proof {
                        lemma_stmts_view_push(out@, s);
                        let p = parse_block(rest);
                        if let Ok(more) = p.result {
                            assert(done + (seq![s@] + more) =~= done.push(s@) + more);
                        }
                    }
                    out.push(s);
                },
                Head::Open(opening) => {
                    let body = self.parse()?;
                    proof {
                        lemma_parse_block_rest(rest);
                    }
                    let s = finish(opening, body);
                    proof {
                        lemma_stmts_view_push(out@, s);
                        let p = parse_block(self.pending());
                        if let Ok(more) = p.result {
                            assert(done + (seq![s@] + more) =~= done.push(s@) + more);
                        }
                    }
                    out.push(s);
                },
            }
        }
    }
}

} // verus!
