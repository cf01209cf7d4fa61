//! The registry of templates and the rules by which they are rendered.
use crate::compiler::ast::{
    expr_view, lemma_stmts_view_push, stmts_view, ExprView, Expression, Statement, StmtView,
};
use crate::compiler::condition::holds;
use crate::compiler::error::{LexFault, RenderFault, TemplusError};
use crate::compiler::lexer::{lexemes, LexerState};
use crate::compiler::parser::{
    lemma_parse_fails_as_lexer_or_parser, lemma_text_stays_text, parse_tokens, Parser,
};
use crate::text::{parse_i64, parse_integer, same_text};
use crate::value::{field, values_view, Value, ValueView};
use vstd::prelude::*;
use vstd::string::{StringExecFns, StringSliceAdditionalSpecFns};

verus! {

/// How many imports, extensions and block overrides one render call
/// follows, one inside the other.
pub const MAX_DEPTH: usize = 64;

/// The templates that are known, by name.
pub type Registry = Map<Seq<char>, StmtView>;

/// The bodies that replace blocks, by the name of the block.
pub type Overrides = Map<Seq<char>, Seq<StmtView>>;

/// The outcome of rendering: the text, or the first error.
pub type Rendered = Result<Seq<char>, TemplusError>;

/// The failure of a render call with `fault`.
pub open spec fn failed(fault: RenderFault) -> Rendered {
    Err(TemplusError::RenderError(fault))
}

/// `done` followed by what `more` holds, or the error of `more`.
pub open spec fn prefixed(done: Seq<char>, more: Rendered) -> Rendered {
    match more {
        Ok(text) => Ok(done + text),
        Err(e) => Err(e),
    }
}

/// `first` followed by `second`; of two errors, that of `first`.
pub open spec fn joined(first: Rendered, second: Rendered) -> Rendered {
    match first {
        Ok(text) => prefixed(text, second),
        Err(e) => Err(e),
    }
}

/// The name of a template, and nothing for other statements.
pub open spec fn template_name(stmt: StmtView) -> Option<Seq<char>> {
    match stmt {
        StmtView::Define(name, _, _) => Some(name),
        _ => None,
    }
}

/// The body of a template; other statements have none.
pub open spec fn template_body(stmt: StmtView) -> Seq<StmtView> {
    match stmt {
        StmtView::Define(_, _, body) => body,
        _ => Seq::empty(),
    }
}

/// The registry that comes of entering the templates among `entries` one
/// after the other: a later template replaces an earlier one of its name.
pub open spec fn registry(entries: Seq<StmtView>) -> Registry
    decreases entries.len(),
{
    if entries.len() == 0 {
        Map::empty()
    } else {
        let before = registry(entries.drop_last());
        match template_name(entries.last()) {
            Some(name) => before.insert(name, entries.last()),
            None => before,
        }
    }
}

/// The blocks among `body`, by name: what a template that extends another
/// puts in the place of the other's blocks. Of two blocks of one name the
/// later one counts; statements that are no blocks do not count at all.
pub open spec fn block_map(body: Seq<StmtView>) -> Overrides
    decreases body.len(),
{
    if body.len() == 0 {
        Map::empty()
    } else {
        let before = block_map(body.drop_last());
        match body.last() {
            StmtView::Block(name, content) => before.insert(name, content),
            _ => before,
        }
    }
}

/// What one statement renders to.
///
/// A block renders the body that `over` holds for its name, or its own
/// where there is none. A template that extends another renders the body of
/// that other, with its own blocks as the overrides; one that extends none
/// renders its own body. An import renders the named template without any
/// overrides. `fuel` bounds how many imports, extensions and overrides are
/// followed one inside the other.
pub open spec fn render_stmt(
    reg: Registry,
    stmt: StmtView,
    ctx: ValueView,
    over: Option<Overrides>,
    fuel: nat,
) -> Rendered
    decreases fuel, stmt, 0nat, 0nat,
{
    match stmt {
        StmtView::Expression(e) => render_expr(reg, e, ctx, over, fuel),
        StmtView::Block(name, body) => match over {
            Some(map) => if map.contains_key(name) {
                if fuel == 0 {
                    failed(RenderFault::TooDeep)
                } else {
                    render_body(reg, map[name], ctx, over, (fuel - 1) as nat)
                }
            } else {
                render_body(reg, body, ctx, over, fuel)
            },
            None => render_body(reg, body, ctx, over, fuel),
        },
        StmtView::Define(_, base, body) => match base {
            Some(base_name) => if !reg.contains_key(base_name) {
                failed(RenderFault::BaseNotFound)
            } else if fuel == 0 {
                failed(RenderFault::TooDeep)
            } else {
                render_body(
                    reg,
                    template_body(reg[base_name]),
                    ctx,
                    Some(block_map(body)),
                    (fuel - 1) as nat,
                )
            },
            None => render_body(reg, body, ctx, over, fuel),
        },
        StmtView::Import(name) => if !reg.contains_key(name) {
            failed(RenderFault::ImportNotFound)
        } else if fuel == 0 {
            failed(RenderFault::TooDeep)
        } else {
            render_stmt(reg, reg[name], ctx, None, (fuel - 1) as nat)
        },
    }
}

/// What a list of statements renders to: the texts of the statements, one
/// after the other, or the error of the first statement that fails.
pub open spec fn render_body(
    reg: Registry,
    body: Seq<StmtView>,
    ctx: ValueView,
    over: Option<Overrides>,
    fuel: nat,
) -> Rendered
    decreases fuel, body, 1nat, 0nat,
{
    if body.len() == 0 {
        Ok(Seq::empty())
    } else {
        joined(
            render_stmt(reg, body[0], ctx, over, fuel),
            render_body(reg, body.drop_first(), ctx, over, fuel),
        )
    }
}

/// What an expression renders to.
///
/// A variable renders the string in the field of its name. A literal
/// renders itself. An `if` renders its body where its condition holds, and
/// nothing where it does not; the body sees no overrides. A `range` over a
/// variable renders its body once for each item of the array in that
/// field, with the item as the context; over a literal, as many times as
/// the literal says, in the context as it is.
pub open spec fn render_expr(
    reg: Registry,
    e: ExprView,
    ctx: ValueView,
    over: Option<Overrides>,
    fuel: nat,
) -> Rendered
    decreases fuel, e, 0nat, 0nat,
{
    match e {
        ExprView::Variable(name) => match field(ctx, name) {
            None => failed(RenderFault::MissingKey),
            Some(ValueView::String(text)) => Ok(text),
            Some(_) => failed(RenderFault::NotText),
        },
        ExprView::Literal(text) => Ok(text),
        ExprView::If(cond, body) => match holds(cond, ctx) {
            Err(e) => Err(e),
            Ok(true) => render_body(reg, body, ctx, None, fuel),
            Ok(false) => Ok(Seq::empty()),
        },
        ExprView::Range(source, body) => match *source {
            ExprView::Variable(name) => match field(ctx, name) {
                None => failed(RenderFault::MissingKey),
                Some(ValueView::Array(items)) => render_each(reg, body, items, over, fuel),
                Some(_) => failed(RenderFault::NotAnArray),
            },
            ExprView::Literal(text) => match parse_integer(text) {
                None => failed(RenderFault::InvalidCount),
                Some(n) => render_times(reg, body, ctx, over, fuel, repeats(n)),
            },
            _ => failed(RenderFault::InvalidSource),
        },
    }
}

/// How often a `range` over the integer `n` repeats its body: `n` times,
/// and not at all where `n` is negative.
pub open spec fn repeats(n: i64) -> nat {
    if n > 0 {
        n as nat
    } else {
        0
    }
}

/// The body rendered once for each of `items`, in order, with the item as
/// the context.
pub open spec fn render_each(
    reg: Registry,
    body: Seq<StmtView>,
    items: Seq<ValueView>,
    over: Option<Overrides>,
    fuel: nat,
) -> Rendered
    decreases fuel, body, 2nat, items.len(),
{
    if items.len() == 0 {
        Ok(Seq::empty())
    } else {
        joined(
            render_body(reg, body, items[0], over, fuel),
            render_each(reg, body, items.drop_first(), over, fuel),
        )
    }
}

/// The body rendered `n` times in the same context.
pub open spec fn render_times(
    reg: Registry,
    body: Seq<StmtView>,
    ctx: ValueView,
    over: Option<Overrides>,
    fuel: nat,
    n: nat,
) -> Rendered
    decreases fuel, body, 2nat, n,
{
    if n == 0 {
        Ok(Seq::empty())
    } else {
        joined(
            render_body(reg, body, ctx, over, fuel),
            render_times(reg, body, ctx, over, fuel, (n - 1) as nat),
        )
    }
}

/// What the template `name` of `reg` renders to in the context `ctx`.
pub open spec fn render_template(reg: Registry, name: Seq<char>, ctx: ValueView) -> Rendered {
    if reg.contains_key(name) {
        render_stmt(reg, reg[name], ctx, None, MAX_DEPTH as nat)
    } else {
        failed(RenderFault::TemplateNotFound)
    }
}

/// The text or the error that a render call returns, as a mathematical
/// value.
pub open spec fn rendered(r: Result<String, TemplusError>) -> Rendered {
    match r {
        Ok(text) => Ok(text@),
        Err(e) => Err(e),
    }
}

/// The overrides that a list of named bodies stands for: a later body
/// replaces an earlier one of its name.
pub open spec fn overrides_of(pairs: Seq<(&String, &Vec<Statement>)>) -> Overrides
    decreases pairs.len(),
{
    if pairs.len() == 0 {
        Map::empty()
    } else {
        overrides_of(pairs.drop_last()).insert(pairs.last().0@, stmts_view(pairs.last().1@))
    }
}

/// The overrides that a render call works with, if any.
pub open spec fn active(overwrites: Option<&Vec<(&String, &Vec<Statement>)>>) -> Option<Overrides> {
    match overwrites {
        Some(pairs) => Some(overrides_of(pairs@)),
        None => None,
    }
}

/// How many of `stmts` stand before the first that is no template.
pub open spec fn leading_templates(stmts: Seq<StmtView>) -> nat
    decreases stmts.len(),
{
    if stmts.len() == 0 || !(stmts[0] is Define) {
        0
    } else {
        1 + leading_templates(stmts.drop_first())
    }
}

/// The statements that `leading_templates` counts are templates.
pub proof fn lemma_leading_are_templates(stmts: Seq<StmtView>)
    ensures
        leading_templates(stmts) <= stmts.len(),
        forall|k: int| 0 <= k < leading_templates(stmts) ==> (#[trigger] stmts[k]) is Define,
    decreases stmts.len(),
{
    if stmts.len() > 0 && stmts[0] is Define {
        let rest = stmts.drop_first();
        lemma_leading_are_templates(rest);
        assert forall|k: int| 0 <= k < leading_templates(stmts) implies (#[trigger] stmts[k]) is Define by {
            if k > 0 {
                assert(stmts[k] == rest[k - 1]);
            }
        }
    }
}

/// Whether the entry at index `j` is the last of `entries` that is a
/// template of the name `name`.
pub open spec fn is_last_of_name(entries: Seq<StmtView>, name: Seq<char>, j: int) -> bool {
    &&& 0 <= j < entries.len()
    &&& template_name(entries[j]) == Some(name)
    &&& forall|k: int| j < k < entries.len() ==> template_name(#[trigger] entries[k]) != Some(name)
}

/// Whether none of `entries` is a template of the name `name`.
pub open spec fn none_of_name(entries: Seq<StmtView>, name: Seq<char>) -> bool {
    forall|k: int| 0 <= k < entries.len() ==> template_name(#[trigger] entries[k]) != Some(name)
}

/// A name stands for the last template of that name.
pub proof fn lemma_registry_lookup(entries: Seq<StmtView>, name: Seq<char>, j: int)
    requires
        is_last_of_name(entries, name, j),
    ensures
        registry(entries).contains_key(name),
        registry(entries)[name] == entries[j],
    decreases entries.len(),
{
    if j < entries.len() - 1 {
        lemma_registry_lookup(entries.drop_last(), name, j);
    }
}

/// A name that no template has stands for nothing.
pub proof fn lemma_registry_misses(entries: Seq<StmtView>, name: Seq<char>)
    requires
        none_of_name(entries, name),
    ensures
        !registry(entries).contains_key(name),
    decreases entries.len(),
{
    if entries.len() > 0 {
        lemma_registry_misses(entries.drop_last(), name);
    }
}

/// Putting a template in the place of the last template of its name is
/// entering it.
pub proof fn lemma_registry_replace(
    entries: Seq<StmtView>,
    name: Seq<char>,
    j: int,
    stmt: StmtView,
)
    requires
        is_last_of_name(entries, name, j),
        template_name(stmt) == Some(name),
    ensures
        registry(entries.update(j, stmt)) == registry(entries).insert(name, stmt),
    decreases entries.len(),
{
    let changed = entries.update(j, stmt);
    let before = entries.drop_last();
    if j == entries.len() - 1 {
        assert(changed.drop_last() =~= before);
    } else {
        lemma_registry_replace(before, name, j, stmt);
        assert(changed.drop_last() =~= before.update(j, stmt));
    }
}

/// `reg` after the templates among `new` were entered, in order.
pub open spec fn enter_all(reg: Registry, new: Seq<StmtView>) -> Registry
    decreases new.len(),
{
    if new.len() == 0 {
        reg
    } else {
        let before = enter_all(reg, new.drop_last());
        match template_name(new.last()) {
            Some(name) => before.insert(name, new.last()),
            None => before,
        }
    }
}

/// A set of templates to render from. Documents are parsed into it one by
/// one; a template that is defined again takes the place of the one
/// before it. Of two entries of one name the later one counts, and an
/// entry that is no template counts for nothing.
pub struct Envirement {
    pub templates: Vec<Statement>,
}

impl View for Envirement {
    type V = Registry;

    open spec fn view(&self) -> Registry {
        registry(stmts_view(self.templates@))
    }
}

/// The body that `pairs` holds for the block `name`.
fn find_override<'b>(pairs: &Vec<(&'b String, &'b Vec<Statement>)>, name: &str) -> (r: Option<
    &'b Vec<Statement>,
>)
    ensures
        match r {
            Some(body) => overrides_of(pairs@).contains_key(name@) && overrides_of(pairs@)[name@]
                == stmts_view(body@),
            None => !overrides_of(pairs@).contains_key(name@),
        },
{
    let mut i: usize = pairs.len();
    assert(pairs@.take(i as int) =~= pairs@);
    while i > 0
        invariant
            i <= pairs@.len(),
            overrides_of(pairs@).contains_key(name@) == overrides_of(
                pairs@.take(i as int),
            ).contains_key(name@),
            overrides_of(pairs@).contains_key(name@) ==> overrides_of(pairs@)[name@]
                == overrides_of(pairs@.take(i as int))[name@],
        decreases i,
    {
        let ghost upto = pairs@.take(i as int);
        assert(upto.drop_last() =~= pairs@.take(i - 1));
        i -= 1;
        if same_text(pairs[i].0.as_str(), name) {
            return Some(pairs[i].1);
        }
    }
    None
}

/// Whether `stmt` is a template.
fn is_template(stmt: &Statement) -> (r: bool)
    ensures
        r == (stmt@ is Define),
{
    match stmt {
        Statement::Define(_, _, _) => true,
        _ => false,
    }
}

impl Envirement {
    /// A registry without templates.
    pub fn new() -> (r: Self)
        ensures
            r@ == Map::<Seq<char>, StmtView>::empty(),
    {
        Envirement { templates: Vec::new() }
    }

    /// The index of the template that `name` stands for: the last entry
    /// of that name.
    fn position(&self, name: &str) -> (r: Option<usize>)
        ensures
            match r {
                Some(j) => is_last_of_name(stmts_view(self.templates@), name@, j as int),
                None => none_of_name(stmts_view(self.templates@), name@),
            },
    {
        let ghost all = stmts_view(self.templates@);
        let mut i: usize = self.templates.len();
        while i > 0
            invariant
                i <= self.templates@.len(),
                all == stmts_view(self.templates@),
                forall|k: int| i <= k < all.len() ==> template_name(#[trigger] all[k]) != Some(name@),
            decreases i,
        {
            i -= 1;
            match &self.templates[i] {
                Statement::Define(known, _, _) => {
                    if same_text(known.as_str(), name) {
                        return Some(i);
                    }
                },
                _ => {},
            }
        }
        None
    }

    /// The template `name`, if it is known.
    fn find(&self, name: &str) -> (r: Option<&Statement>)
        ensures
            match r {
                Some(stmt) => self@.contains_key(name@) && self@[name@] == stmt@ && stmt is Define,
                None => !self@.contains_key(name@),
            },
    {
        let ghost all = stmts_view(self.templates@);
        match self.position(name) {
            Some(j) => {
                proof {
                    lemma_registry_lookup(all, name@, j as int);
                }
                Some(&self.templates[j])
            },
            None => {
                proof {
                    lemma_registry_misses(all, name@);
                }
                None
            },
        }
    }

    /// Enters the template `stmt`: in the place of the template that its
    /// name stood for, or as a new entry.
    fn enter(&mut self, stmt: Statement)
        requires
            stmt@ is Define,
        ensures
            final(self)@ == old(self)@.insert(template_name(stmt@)->0, stmt@),
    {
        let ghost all = stmts_view(self.templates@);
        let found = match &stmt {
            Statement::Define(name, _, _) => self.position(name.as_str()),
            _ => None,
        };
        match found {
            Some(j) => {
                proof {
                    lemma_registry_replace(all, template_name(stmt@)->0, j as int, stmt@);
                }
                self.templates[j] = stmt;
                assert(stmts_view(self.templates@) =~= all.update(j as int, stmt@));
            },
            None => {
                self.templates.push(stmt);
                proof {
                    lemma_stmts_view_push(old(self).templates@, stmt);
                    assert(all.push(stmt@).drop_last() =~= all);
                }
            },
        }
    }

    /// Parses one document and enters its templates. A lexer or parser
    /// error leaves the registry as it was. A top-level statement that is
    /// no template is a configuration error; the templates before it stay
    /// entered. The text of a token is never found invalid.
    pub fn parse(&mut self, template: &str) -> (r: Result<(), TemplusError>)
        ensures
            r matches Err(e) ==> e is LexerError || e is ParserError || e is ConfigurationError,
            !(r matches Err(TemplusError::LexerError(LexFault::InvalidText, _))),
            match parse_tokens(lexemes(template.spec_bytes(), 0, LexerState::InMarkup)) {
                Err(e) => r == Err::<(), _>(e) && final(self)@ == old(self)@,
                Ok(stmts) => {
                    let n = leading_templates(stmts);
                    &&& final(self)@ == enter_all(old(self)@, stmts.take(n as int))
                    &&& r == (if n == stmts.len() {
                        Ok::<(), TemplusError>(())
                    } else {
                        Err::<(), _>(TemplusError::ConfigurationError)
                    })
                },
            },
    {
        proof {
            vstd::utf8::encode_utf8_valid_utf8(template@);
            lemma_text_stays_text(template.spec_bytes());
            lemma_parse_fails_as_lexer_or_parser(template.spec_bytes());
        }
        let mut parser = Parser::new(template.as_bytes());
        let mut stmts = match parser.parse() {
            Ok(stmts) => stmts,
            Err(e) => {
                return Err(e);
            },
        };
        let ghost parsed = stmts_view(stmts@);
        let mut n: usize = 0;
        assert(parsed.skip(0) =~= parsed);
        while n < stmts.len() && is_template(&stmts[n])
            invariant
                n <= stmts@.len(),
                parsed == stmts_view(stmts@),
                leading_templates(parsed) == n + leading_templates(parsed.skip(n as int)),
            decreases stmts@.len() - n,
        {
            assert(parsed.skip(n as int).drop_first() =~= parsed.skip(n + 1));
            n += 1;
        }
        proof {
            lemma_leading_are_templates(parsed);
        }
        let complete = n == stmts.len();
        stmts.truncate(n);
        let ghost taken = stmts@;
        assert(stmts_view(taken) =~= parsed.take(n as int));
        assert forall|k: int| 0 <= k < taken.len() implies (#[trigger] taken[k])@ is Define by {
            assert(parsed.take(n as int)[k] == parsed[k]);
        }
        for stmt in it: stmts
            invariant
                it.seq() == taken,
                forall|k: int| 0 <= k < taken.len() ==> (#[trigger] taken[k])@ is Define,
                self@ == enter_all(old(self)@, stmts_view(taken).take(it.index() as int)),
        {
            let ghost i = it.index() as int;
            let ghost upto = stmts_view(taken).take(i + 1);
            assert(upto.drop_last() =~= stmts_view(taken).take(i));
            self.enter(stmt);
        }
        assert(stmts_view(taken).take(taken.len() as int) =~= stmts_view(taken));
        if complete {
            Ok(())
        } else {
            Err(TemplusError::ConfigurationError)
        }
    }

    /// Renders the template `name` in the context `ctx`. Where rendering
    /// fails, no text is returned, and the error is a render error.
    pub fn render(&self, name: &str, ctx: &Value) -> (r: Result<String, TemplusError>)
        ensures
            rendered(r) == render_template(self@, name@, ctx@),
            r matches Err(e) ==> e is RenderError,
    {
        proof {
            if self@.contains_key(name@) {
                lemma_render_fails_as_render(self@, self@[name@], ctx@, None, MAX_DEPTH as nat);
            }
        }
        match self.find(name) {
            Some(template) => self.render_stmt(template, ctx, None, MAX_DEPTH),
            None => Err(TemplusError::RenderError(RenderFault::TemplateNotFound)),
        }
    }

    /// The blocks among `stmt`, each with its name, in order.
    pub fn extract_blocks<'b>(stmt: &'b Vec<Statement>) -> (r: Vec<(&'b String, &'b Vec<Statement>)>)
        ensures
            overrides_of(r@) == block_map(stmts_view(stmt@)),
    {
        let mut blocks: Vec<(&'b String, &'b Vec<Statement>)> = Vec::new();
        let ghost all = stmts_view(stmt@);
        let mut i: usize = 0;
        while i < stmt.len()
            invariant
                i <= stmt@.len(),
                all == stmts_view(stmt@),
                overrides_of(blocks@) == block_map(all.take(i as int)),
            decreases stmt@.len() - i,
        {
            let ghost upto = all.take(i + 1);
            assert(upto.drop_last() =~= all.take(i as int));
            match &stmt[i] {
                Statement::Block(name, content) => {
                    let ghost before = blocks@;
                    blocks.push((name, content));
                    assert(blocks@.drop_last() =~= before);
                },
                _ => {},
            }
            i += 1;
        }
        assert(all.take(i as int) =~= all);
        blocks
    }

    /// Renders a list of statements, one after the other.
    fn render_all(
        &self,
        stmts: &Vec<Statement>,
        ctx: &Value,
        overwrites: Option<&Vec<(&String, &Vec<Statement>)>>,
        depth: usize,
    ) -> (r: Result<String, TemplusError>)
        ensures
            rendered(r) == render_body(
                self@,
                stmts_view(stmts@),
                ctx@,
                active(overwrites),
                depth as nat,
            ),
        decreases depth, stmts, 1nat, 0nat,
    {
        let ghost body = stmts_view(stmts@);
        let ghost whole = render_body(self@, body, ctx@, active(overwrites), depth as nat);
        let mut out = String::new();
        let mut i: usize = 0;
        assert(body.skip(0) =~= body);
        while i < stmts.len()
            invariant
                i <= stmts@.len(),
                body == stmts_view(stmts@),
                whole == render_body(self@, body, ctx@, active(overwrites), depth as nat),
                whole == prefixed(
                    out@,
                    render_body(self@, body.skip(i as int), ctx@, active(overwrites), depth as nat),
                ),
            decreases stmts@.len() - i,
        {
            let ghost rest = body.skip(i as int);
            assert(rest.drop_first() =~= body.skip(i + 1));
            let piece = match self.render_stmt(&stmts[i], ctx, overwrites, depth) {
                Ok(piece) => piece,
                Err(e) => {
                    return Err(e);
                },
            };
            proof {
                lemma_prefixed_twice(
                    out@,
                    piece@,
                    render_body(self@, body.skip(i + 1), ctx@, active(overwrites), depth as nat),
                );
            }
            out.append(piece.as_str());
            i += 1;
        }
        Ok(out)
    }

    /// Renders one statement.
    fn render_stmt(
        &self,
        stmt: &Statement,
        ctx: &Value,
        overwrites: Option<&Vec<(&String, &Vec<Statement>)>>,
        depth: usize,
    ) -> (r: Result<String, TemplusError>)
        ensures
            rendered(r) == render_stmt(self@, stmt@, ctx@, active(overwrites), depth as nat),
        decreases depth, stmt, 0nat, 0nat,
    {
        match stmt {
            Statement::Expression(expr) => self.render_expr(expr, ctx, overwrites, depth),
            Statement::Define(_, extends, stmts) => match extends {
                Some(extends_name) => {
                    let base_tmpl = match self.find(extends_name.as_str()) {
                        Some(base_tmpl) => base_tmpl,
                        None => {
                            return Err(TemplusError::RenderError(RenderFault::BaseNotFound));
                        },
                    };
                    if depth == 0 {
                        return Err(TemplusError::RenderError(RenderFault::TooDeep));
                    }
                    let over = Envirement::extract_blocks(stmts);
                    match base_tmpl {
                        Statement::Define(_, _, body) => self.render_all(
                            body,
                            ctx,
                            Some(&over),
                            depth - 1,
                        ),
                        _ => Ok(String::new()),
                    }
                },
                None => self.render_all(stmts, ctx, overwrites, depth),
            },
            Statement::Block(name, stmts) => match overwrites {
                Some(ow) => match find_override(ow, name.as_str()) {
                    Some(block) => {
                        if depth == 0 {
                            return Err(TemplusError::RenderError(RenderFault::TooDeep));
                        }
                        self.render_all(block, ctx, overwrites, depth - 1)
                    },
                    None => self.render_all(stmts, ctx, overwrites, depth),
                },
                None => self.render_all(stmts, ctx, overwrites, depth),
            },
            Statement::Import(tmpl_name) => {
                let tmpl = match self.find(tmpl_name.as_str()) {
                    Some(tmpl) => tmpl,
                    None => {
                        return Err(TemplusError::RenderError(RenderFault::ImportNotFound));
                    },
                };
                if depth == 0 {
                    return Err(TemplusError::RenderError(RenderFault::TooDeep));
                }
                self.render_stmt(tmpl, ctx, None, depth - 1)
            },
        }
    }

    /// Renders one expression.
    fn render_expr(
        &self,
        expr: &Expression,
        ctx: &Value,
        overwrites: Option<&Vec<(&String, &Vec<Statement>)>>,
        depth: usize,
    ) -> (r: Result<String, TemplusError>)
        ensures
            rendered(r) == render_expr(self@, expr@, ctx@, active(overwrites), depth as nat),
        decreases depth, expr, 0nat, 0nat,
    {
        match expr {
            Expression::Variable(var_name) => {
                let r = match ctx.get(var_name.as_str()) {
                    None => Err(TemplusError::RenderError(RenderFault::MissingKey)),
                    Some(Value::String(text)) => Ok(text.clone()),
                    Some(_) => Err(TemplusError::RenderError(RenderFault::NotText)),
                };
                r
            },
            Expression::Literal(literal) => {
                let r = Ok(literal.clone());
                r
            },
            Expression::If(ifexpr, stmts) => {
                let r = match ifexpr.eval(ctx) {
                    Err(e) => Err(e),
                    Ok(true) => self.render_all(stmts, ctx, None, depth),
                    Ok(false) => Ok(String::new()),
                };
                r
            },
            Expression::Range(source, stmts) => {
                proof {
                    reveal_with_fuel(expr_view, 2);
                }
                let r = match &**source {
                    Expression::Variable(var) => match ctx.get(var.as_str()) {
                        None => Err(TemplusError::RenderError(RenderFault::MissingKey)),
                        Some(Value::Array(array)) => self.render_each(
                            stmts,
                            array,
                            overwrites,
                            depth,
                        ),
                        Some(_) => Err(TemplusError::RenderError(RenderFault::NotAnArray)),
                    },
                    Expression::Literal(lit) => match parse_i64(lit.as_str()) {
                        None => Err(TemplusError::RenderError(RenderFault::InvalidCount)),
                        Some(num) => self.render_times(stmts, ctx, overwrites, depth, num),
                    },
                    _ => Err(TemplusError::RenderError(RenderFault::InvalidSource)),
                };
                r
            },
        }
    }

    /// Renders `stmts` once for each of `items`.
    fn render_each(
        &self,
        stmts: &Vec<Statement>,
        items: &Vec<Value>,
        overwrites: Option<&Vec<(&String, &Vec<Statement>)>>,
        depth: usize,
    ) -> (r: Result<String, TemplusError>)
        ensures
            rendered(r) == render_each(
                self@,
                stmts_view(stmts@),
                values_view(items@),
                active(overwrites),
                depth as nat,
            ),
        decreases depth, stmts, 2nat, 0nat,
    {
        let ghost body = stmts_view(stmts@);
        let ghost all = values_view(items@);
        let ghost whole = render_each(self@, body, all, active(overwrites), depth as nat);
        let mut out = String::new();
        let mut i: usize = 0;
        assert(all.skip(0) =~= all);
        while i < items.len()
            invariant
                i <= items@.len(),
                body == stmts_view(stmts@),
                all == values_view(items@),
                whole == render_each(self@, body, all, active(overwrites), depth as nat),
                whole == prefixed(
                    out@,
                    render_each(self@, body, all.skip(i as int), active(overwrites), depth as nat),
                ),
            decreases items@.len() - i,
        {
            let ghost rest = all.skip(i as int);
            assert(rest.drop_first() =~= all.skip(i + 1));
            let piece = match self.render_all(stmts, &items[i], overwrites, depth) {
                Ok(piece) => piece,
                Err(e) => {
                    return Err(e);
                },
            };
            proof {
                lemma_prefixed_twice(
                    out@,
                    piece@,
                    render_each(self@, body, all.skip(i + 1), active(overwrites), depth as nat),
                );
            }
            out.append(piece.as_str());
            i += 1;
        }
        Ok(out)
    }

    /// Renders `stmts` as often as `count` says.
    fn render_times(
        &self,
        stmts: &Vec<Statement>,
        ctx: &Value,
        overwrites: Option<&Vec<(&String, &Vec<Statement>)>>,
        depth: usize,
        count: i64,
    ) -> (r: Result<String, TemplusError>)
        ensures
            rendered(r) == render_times(
                self@,
                stmts_view(stmts@),
                ctx@,
                active(overwrites),
                depth as nat,
                repeats(count),
            ),
        decreases depth, stmts, 2nat, 0nat,
    {
        let ghost body = stmts_view(stmts@);
        let ghost total = repeats(count);
        let ghost whole = render_times(self@, body, ctx@, active(overwrites), depth as nat, total);
        let mut out = String::new();
        let mut i: i64 = 0;
        while i < count
            invariant
                0 <= i,
                i <= total,
                total == repeats(count),
                body == stmts_view(stmts@),
                whole == render_times(self@, body, ctx@, active(overwrites), depth as nat, total),
                whole == prefixed(
                    out@,
                    render_times(
                        self@,
                        body,
                        ctx@,
                        active(overwrites),
                        depth as nat,
                        (total - i) as nat,
                    ),
                ),
            decreases count - i,
        {
            let piece = match self.render_all(stmts, ctx, overwrites, depth) {
                Ok(piece) => piece,
                Err(e) => {
                    return Err(e);
                },
            };
            proof {
                lemma_prefixed_twice(
                    out@,
                    piece@,
                    render_times(
                        self@,
                        body,
                        ctx@,
                        active(overwrites),
                        depth as nat,
                        (total - i - 1) as nat,
                    ),
                );
            }
            out.append(piece.as_str());
            i += 1;
        }
        Ok(out)
    }
}

/// Whether `r` is a text or a render error.
pub open spec fn text_or_render_error(r: Rendered) -> bool {
    r matches Err(e) ==> e is RenderError
}

/// Rendering a statement fails with a render error, and with nothing else.
pub proof fn lemma_render_fails_as_render(
    reg: Registry,
    stmt: StmtView,
    ctx: ValueView,
    over: Option<Overrides>,
    fuel: nat,
)
    ensures
        text_or_render_error(render_stmt(reg, stmt, ctx, over, fuel)),
    decreases fuel, stmt, 0nat, 0nat,
{
    match stmt {
        StmtView::Expression(e) => {
            lemma_expr_fails_as_render(reg, e, ctx, over, fuel);
        },
        StmtView::Block(name, body) => {
            if over is Some && over->0.contains_key(name) {
                if fuel > 0 {
                    lemma_body_fails_as_render(reg, over->0[name], ctx, over, (fuel - 1) as nat);
                }
            } else {
                lemma_body_fails_as_render(reg, body, ctx, over, fuel);
            }
        },
        StmtView::Define(_, base, body) => {
            match base {
                Some(base_name) => {
                    if reg.contains_key(base_name) && fuel > 0 {
                        lemma_body_fails_as_render(
                            reg,
                            template_body(reg[base_name]),
                            ctx,
                            Some(block_map(body)),
                            (fuel - 1) as nat,
                        );
                    }
                },
                None => {
                    lemma_body_fails_as_render(reg, body, ctx, over, fuel);
                },
            }
        },
        StmtView::Import(name) => {
            if reg.contains_key(name) && fuel > 0 {
                lemma_render_fails_as_render(reg, reg[name], ctx, None, (fuel - 1) as nat);
            }
        },
    }
}

/// Rendering a list of statements fails with a render error, and with
/// nothing else.
pub proof fn lemma_body_fails_as_render(
    reg: Registry,
    body: Seq<StmtView>,
    ctx: ValueView,
    over: Option<Overrides>,
    fuel: nat,
)
    ensures
        text_or_render_error(render_body(reg, body, ctx, over, fuel)),
    decreases fuel, body, 1nat, 0nat,
{
    if body.len() > 0 {
        lemma_render_fails_as_render(reg, body[0], ctx, over, fuel);
        lemma_body_fails_as_render(reg, body.drop_first(), ctx, over, fuel);
    }
}

/// Rendering an expression fails with a render error, and with nothing
/// else.
pub proof fn lemma_expr_fails_as_render(
    reg: Registry,
    e: ExprView,
    ctx: ValueView,
    over: Option<Overrides>,
    fuel: nat,
)
    ensures
        text_or_render_error(render_expr(reg, e, ctx, over, fuel)),
    decreases fuel, e, 0nat, 0nat,
{
    match e {
        ExprView::If(cond, body) => {
            lemma_body_fails_as_render(reg, body, ctx, None, fuel);
        },
        ExprView::Range(source, body) => {
            match *source {
                ExprView::Variable(name) => {
                    if let Some(ValueView::Array(items)) = field(ctx, name) {
                        lemma_each_fails_as_render(reg, body, items, over, fuel);
                    }
                },
                ExprView::Literal(text) => {
                    if let Some(n) = parse_integer(text) {
                        lemma_times_fails_as_render(reg, body, ctx, over, fuel, repeats(n));
                    }
                },
                _ => {},
            }
        },
        _ => {},
    }
}

/// Rendering a body for each item of an array fails with a render error,
/// and with nothing else.
pub proof fn lemma_each_fails_as_render(
    reg: Registry,
    body: Seq<StmtView>,
    items: Seq<ValueView>,
    over: Option<Overrides>,
    fuel: nat,
)
    ensures
        text_or_render_error(render_each(reg, body, items, over, fuel)),
    decreases fuel, body, 2nat, items.len(),
{
    if items.len() > 0 {
        lemma_body_fails_as_render(reg, body, items[0], over, fuel);
        lemma_each_fails_as_render(reg, body, items.drop_first(), over, fuel);
    }
}

/// Rendering a body a number of times fails with a render error, and with
/// nothing else.
pub proof fn lemma_times_fails_as_render(
    reg: Registry,
    body: Seq<StmtView>,
    ctx: ValueView,
    over: Option<Overrides>,
    fuel: nat,
    n: nat,
)
    ensures
        text_or_render_error(render_times(reg, body, ctx, over, fuel, n)),
    decreases fuel, body, 2nat, n,
{
    if n > 0 {
        lemma_body_fails_as_render(reg, body, ctx, over, fuel);
        lemma_times_fails_as_render(reg, body, ctx, over, fuel, (n - 1) as nat);
    }
}

/// A `range` over an array renders its items one after the other: what
/// the items `first + second` render to is what `first` renders to,
/// followed by what `second` renders to.
pub proof fn lemma_render_each_concat(
    reg: Registry,
    body: Seq<StmtView>,
    first: Seq<ValueView>,
    second: Seq<ValueView>,
    over: Option<Overrides>,
    fuel: nat,
)
    ensures
        render_each(reg, body, first + second, over, fuel) == joined(
            render_each(reg, body, first, over, fuel),
            render_each(reg, body, second, over, fuel),
        ),
    decreases first.len(),
{
    if first.len() > 0 {
        let all = first + second;
        assert(all.drop_first() =~= first.drop_first() + second);
        lemma_render_each_concat(reg, body, first.drop_first(), second, over, fuel);
        let head = render_body(reg, body, first[0], over, fuel);
        let middle = render_each(reg, body, first.drop_first(), over, fuel);
        let tail = render_each(reg, body, second, over, fuel);
        if let Ok(a) = head {
            if let Ok(b) = middle {
                lemma_prefixed_twice(a, b, tail);
            }
        }
    }
}

/// Rendering keeps no state: two calls of [`Envirement::render`] on one
/// registry, with equal names and equal contexts, return the same text or
/// the same error.
pub proof fn lemma_render_repeatable(
    env: Envirement,
    name: &str,
    again: &str,
    ctx: Value,
    same: Value,
    first: Result<String, TemplusError>,
    second: Result<String, TemplusError>,
)
    requires
        name@ == again@,
        ctx@ == same@,
        rendered(first) == render_template(env@, name@, ctx@),
        rendered(second) == render_template(env@, again@, same@),
    ensures
        rendered(first) == rendered(second),
{
}

/// A template that is entered again replaces the one before it: after
/// `stmt` was entered last, its name stands for it.
pub proof fn lemma_last_entry_wins(reg: Registry, before: Seq<StmtView>, stmt: StmtView)
    requires
        stmt is Define,
    ensures
        enter_all(reg, before.push(stmt)).contains_key(template_name(stmt)->0),
        enter_all(reg, before.push(stmt))[template_name(stmt)->0] == stmt,
        forall|other: Seq<char>|
            other != template_name(stmt)->0 ==> (#[trigger] enter_all(
                reg,
                before.push(stmt),
            ).contains_key(other) == enter_all(reg, before).contains_key(other)),
        forall|other: Seq<char>|
            other != template_name(stmt)->0 && enter_all(reg, before).contains_key(other)
                ==> #[trigger] enter_all(reg, before.push(stmt))[other] == enter_all(
                reg,
                before,
            )[other],
{
    assert(before.push(stmt).drop_last() =~= before);
}

/// Every entry of a registry is a template, under its own name.
pub proof fn lemma_registry_holds_templates(entries: Seq<StmtView>, name: Seq<char>)
    requires
        registry(entries).contains_key(name),
    ensures
        template_name(registry(entries)[name]) == Some(name),
    decreases entries.len(),
{
    if entries.len() > 0 {
        if template_name(entries.last()) != Some(name) {
            lemma_registry_holds_templates(entries.drop_last(), name);
        }
    }
}

/// Two texts in front of an outcome, one after the other, are their
/// concatenation in front of it.
pub proof fn lemma_prefixed_twice(a: Seq<char>, b: Seq<char>, more: Rendered)
    ensures
        prefixed(a, prefixed(b, more)) == prefixed(a + b, more),
{
    if let Ok(text) = more {
        assert(a + (b + text) =~= (a + b) + text);
    }
}

} // verus!
