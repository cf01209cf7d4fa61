//! The lexer: from the bytes of a source to tokens with their places.
use super::error::{LexFault, TemplusError};
use super::tokens::{keyword, Token, TokenView};
use crate::text::{
    lemma_after_ascii, lemma_after_ascii_run, lemma_piece_is_text, starts_char, text_from_utf8,
};
use vstd::prelude::*;
use vstd::slice::{slice_subrange, slice_to_vec};
use vstd::utf8::{decode_utf8, valid_utf8};

verus! {

pub const TAB: u8 = 0x09;

pub const NEWLINE: u8 = 0x0a;

pub const SPACE: u8 = 0x20;

pub const DOUBLE_QUOTE: u8 = 0x22;

pub const SINGLE_QUOTE: u8 = 0x27;

pub const DOT: u8 = 0x2e;

pub const DIGIT_ZERO: u8 = 0x30;

pub const DIGIT_NINE: u8 = 0x39;

pub const OPEN_BRACE: u8 = 0x7b;

pub const CLOSE_BRACE: u8 = 0x7d;

pub const DELETE: u8 = 0x7f;

/// A place in the source: the line, counted from 1, and the number of bytes
/// that precede the place on its line.
#[derive(Debug, Clone, Copy, PartialEq, Eq)]
pub struct Span {
    pub current_line: usize,
    pub current_column: usize,
}

/// Space, tab or newline: what is trimmed from markup.
pub open spec fn is_blank(b: u8) -> bool {
    b == SPACE || b == TAB || b == NEWLINE
}

/// ASCII whitespace and control characters: what the lexer skips between
/// tokens.
pub open spec fn is_skipped(b: u8) -> bool {
    b <= SPACE || b == DELETE
}

/// An ASCII digit.
pub open spec fn is_digit(b: u8) -> bool {
    DIGIT_ZERO <= b <= DIGIT_NINE
}

/// What a scan looks for.
pub ghost enum Until {
    /// A byte that the lexer does not skip.
    Visible,
    /// A byte that is no digit.
    NonDigit,
    /// The given byte.
    Byte(u8),
    /// Any of the given bytes.
    AnyOf(Seq<u8>),
}

/// Whether a scan for `goal` stops at the byte `b`.
pub open spec fn stops(goal: Until, b: u8) -> bool {
    match goal {
        Until::Visible => !is_skipped(b),
        Until::NonDigit => !is_digit(b),
        Until::Byte(d) => b == d,
        Until::AnyOf(ds) => ds.contains(b),
    }
}

/// The bytes that end a word inside a directive: a space or `}`.
pub open spec fn word_end() -> Until {
    Until::AnyOf(seq![SPACE, CLOSE_BRACE])
}

/// The first index at or after `from` at which a scan for `goal` stops, or
/// the length of `s` where it never does.
pub open spec fn first_where(s: Seq<u8>, from: int, goal: Until) -> int
    decreases s.len() - from,
{
    if from >= s.len() {
        s.len() as int
    } else if from >= 0 && stops(goal, s[from]) {
        from
    } else {
        first_where(s, from + 1, goal)
    }
}

/// Whether `{{` stands at index `i` of `s`.
pub open spec fn opener_at(s: Seq<u8>, i: int) -> bool {
    0 <= i && i + 1 < s.len() && s[i] == OPEN_BRACE && s[i + 1] == OPEN_BRACE
}

/// The first index at or after `from` at which `{{` stands, or the length of
/// `s` where there is none.
pub open spec fn first_opener(s: Seq<u8>, from: int) -> int
    decreases s.len() - from,
{
    if from >= s.len() {
        s.len() as int
    } else if opener_at(s, from) {
        from
    } else {
        first_opener(s, from + 1)
    }
}

/// The number of newlines among the first `upto` bytes of `s`.
pub open spec fn newlines(s: Seq<u8>, upto: int) -> nat
    decreases upto,
{
    if upto <= 0 {
        0
    } else {
        newlines(s, upto - 1) + if s[upto - 1] == NEWLINE {
            1nat
        } else {
            0nat
        }
    }
}

/// The index at which the line that holds position `pos` begins.
pub open spec fn line_start(s: Seq<u8>, pos: int) -> int
    decreases pos,
{
    if pos <= 0 {
        0
    } else if s[pos - 1] == NEWLINE {
        pos
    } else {
        line_start(s, pos - 1)
    }
}

/// The line of position `pos`, counted from 1; it stays at the largest
/// `usize` where the count would pass it.
pub open spec fn line_of(s: Seq<u8>, pos: int) -> usize {
    if 1 + newlines(s, pos) <= usize::MAX {
        (1 + newlines(s, pos)) as usize
    } else {
        usize::MAX
    }
}

/// The place of position `pos` in the source `s`.
pub open spec fn span_at(s: Seq<u8>, pos: int) -> Span {
    Span { current_line: line_of(s, pos), current_column: (pos - line_start(s, pos)) as usize }
}

/// Where the trimmed part of `s` ends: one past its last byte that is not
/// blank, looking only at the first `upto` bytes; 0 where all of them are
/// blank.
pub open spec fn trim_end(s: Seq<u8>, upto: int) -> int
    decreases upto,
{
    if upto <= 0 {
        0
    } else if !is_blank(s[upto - 1]) {
        upto
    } else {
        trim_end(s, upto - 1)
    }
}

/// Where the trimmed part of `s` begins: at its first byte that is not
/// blank, or at its end where all are blank.
pub open spec fn trim_start(s: Seq<u8>, from: int) -> int
    decreases s.len() - from,
{
    if from >= s.len() {
        s.len() as int
    } else if from >= 0 && !is_blank(s[from]) {
        from
    } else {
        trim_start(s, from + 1)
    }
}

/// `s` without the blanks at its two ends.
pub open spec fn trimmed(s: Seq<u8>) -> Seq<u8> {
    let a = trim_start(s, 0);
    let b = trim_end(s, s.len() as int);
    if a < b {
        s.subrange(a, b)
    } else {
        Seq::empty()
    }
}

/// What trimming does: the trimmed part is a piece of `s` that neither
/// begins nor ends with a blank, and everything that `s` holds before and
/// after it is blank.
pub proof fn lemma_trimmed(s: Seq<u8>)
    ensures
        ({
            let a = trim_start(s, 0);
            let b = trim_end(s, s.len() as int);
            &&& 0 <= a <= s.len()
            &&& 0 <= b <= s.len()
            &&& forall|i: int| 0 <= i < a ==> is_blank(#[trigger] s[i])
            &&& forall|i: int| b <= i < s.len() ==> is_blank(#[trigger] s[i])
            &&& a < b ==> !is_blank(s[a]) && !is_blank(s[b - 1]) && trimmed(s) == s.subrange(a, b)
            &&& a >= b ==> a == s.len() && b == 0 && trimmed(s).len() == 0
        }),
{
    lemma_trim_start(s, 0);
    lemma_trim_end(s, s.len() as int);
}

/// What `trim_start` returns: the first index at or after `from` that
/// holds no blank.
pub proof fn lemma_trim_start(s: Seq<u8>, from: int)
    requires
        0 <= from <= s.len(),
    ensures
        from <= trim_start(s, from) <= s.len(),
        forall|i: int| from <= i < trim_start(s, from) ==> is_blank(#[trigger] s[i]),
        trim_start(s, from) < s.len() ==> !is_blank(s[trim_start(s, from)]),
    decreases s.len() - from,
{
    if from < s.len() && is_blank(s[from]) {
        lemma_trim_start(s, from + 1);
    }
}

/// What `trim_end` returns: one past the last index before `upto` that
/// holds no blank.
pub proof fn lemma_trim_end(s: Seq<u8>, upto: int)
    requires
        0 <= upto <= s.len(),
    ensures
        0 <= trim_end(s, upto) <= upto,
        forall|i: int| trim_end(s, upto) <= i < upto ==> is_blank(#[trigger] s[i]),
        trim_end(s, upto) > 0 ==> !is_blank(s[trim_end(s, upto) - 1]),
    decreases upto,
{
    if upto > 0 && is_blank(s[upto - 1]) {
        lemma_trim_end(s, upto - 1);
    }
}

/// What `first_where` returns: it lies between `from` and the length, no
/// byte before it stops the scan, and the byte at it does, if there is one.
pub proof fn lemma_first_where(s: Seq<u8>, from: int, goal: Until)
    requires
        0 <= from <= s.len(),
    ensures
        from <= first_where(s, from, goal) <= s.len(),
        forall|i: int| from <= i < first_where(s, from, goal) ==> !stops(goal, #[trigger] s[i]),
        first_where(s, from, goal) < s.len() ==> stops(goal, s[first_where(s, from, goal)]),
    decreases s.len() - from,
{
    if from < s.len() && !stops(goal, s[from]) {
        lemma_first_where(s, from + 1, goal);
    }
}

/// A scan of the tail of `s` from `base` finds the same byte as a scan of
/// `s` from `base + from`.
pub proof fn lemma_first_where_tail(s: Seq<u8>, base: int, from: int, goal: Until)
    requires
        0 <= base <= s.len(),
        0 <= from <= s.len() - base,
    ensures
        first_where(s.subrange(base, s.len() as int), from, goal) + base == first_where(
            s,
            base + from,
            goal,
        ),
    decreases s.len() - base - from,
{
    let t = s.subrange(base, s.len() as int);
    if from < t.len() {
        if !stops(goal, t[from]) {
            lemma_first_where_tail(s, base, from + 1, goal);
        }
    }
}

/// What `first_opener` returns: it lies between `from` and the length, no
/// `{{` stands before it, and one stands at it unless it is the length.
pub proof fn lemma_first_opener(s: Seq<u8>, from: int)
    requires
        0 <= from <= s.len(),
    ensures
        from <= first_opener(s, from) <= s.len(),
        forall|i: int| from <= i < first_opener(s, from) ==> !opener_at(s, i),
        first_opener(s, from) < s.len() ==> opener_at(s, first_opener(s, from)),
    decreases s.len() - from,
{
    if from < s.len() && !opener_at(s, from) {
        lemma_first_opener(s, from + 1);
    }
}

/// The first `{{` of the tail of `s` from `base` is the first `{{` of `s`
/// at or after `base + from`.
pub proof fn lemma_first_opener_tail(s: Seq<u8>, base: int, from: int)
    requires
        0 <= base <= s.len(),
        0 <= from <= s.len() - base,
    ensures
        first_opener(s.subrange(base, s.len() as int), from) + base == first_opener(s, base + from),
    decreases s.len() - base - from,
{
    let t = s.subrange(base, s.len() as int);
    if from < t.len() && !opener_at(t, from) {
        lemma_first_opener_tail(s, base, from + 1);
    }
}

/// The index of the first byte of `code` that is among `delimiters`.
pub fn offset_to_any_delimiter(code: &[u8], delimiters: &[u8]) -> (r: Option<usize>)
    ensures
        match r {
            Some(k) => k < code@.len() && k == first_where(code@, 0, Until::AnyOf(delimiters@)),
            None => first_where(code@, 0, Until::AnyOf(delimiters@)) == code@.len(),
        },
{
    let ghost goal = Until::AnyOf(delimiters@);
    let mut offset: usize = 0;
    while offset < code.len()
        invariant
            offset <= code@.len(),
            goal == Until::AnyOf(delimiters@),
            first_where(code@, 0, goal) == first_where(code@, offset as int, goal),
        decreases code@.len() - offset,
    {
        let b = code[offset];
        let mut j: usize = 0;
        while j < delimiters.len()
            invariant
                j <= delimiters@.len(),
                offset < code@.len(),
                b == code@[offset as int],
                goal == Until::AnyOf(delimiters@),
                first_where(code@, 0, goal) == first_where(code@, offset as int, goal),
                forall|k: int| 0 <= k < j ==> delimiters@[k] != b,
            decreases delimiters@.len() - j,
        {
            if delimiters[j] == b {
                return Some(offset);
            }
            j += 1;
        }
        offset += 1;
    }
    None
}

/// The index of the first byte of `code` that equals `delimiter`.
pub fn offset_to_delimiter(code: &[u8], delimiter: u8) -> (r: Option<usize>)
    ensures
        match r {
            Some(k) => k < code@.len() && k == first_where(code@, 0, Until::Byte(delimiter)),
            None => first_where(code@, 0, Until::Byte(delimiter)) == code@.len(),
        },
{
    let mut offset: usize = 0;
    while offset < code.len()
        invariant
            offset <= code@.len(),
            first_where(code@, 0, Until::Byte(delimiter)) == first_where(
                code@,
                offset as int,
                Until::Byte(delimiter),
            ),
        decreases code@.len() - offset,
    {
        if code[offset] == delimiter {
            return Some(offset);
        }
        offset += 1;
    }
    None
}

/// The index of the first byte of `code` that is no digit; `None` where
/// every byte is a digit.
pub fn offset_to_number_end(code: &[u8]) -> (r: Option<usize>)
    ensures
        match r {
            Some(k) => k < code@.len() && k == first_where(code@, 0, Until::NonDigit),
            None => first_where(code@, 0, Until::NonDigit) == code@.len(),
        },
{
    let mut offset: usize = 0;
    while offset < code.len()
        invariant
            offset <= code@.len(),
            first_where(code@, 0, Until::NonDigit) == first_where(
                code@,
                offset as int,
                Until::NonDigit,
            ),
        decreases code@.len() - offset,
    {
        let b = code[offset];
        if !(DIGIT_ZERO <= b && b <= DIGIT_NINE) {
            return Some(offset);
        }
        offset += 1;
    }
    None
}

/// The index of the first `{{` in `code`, with the number of newlines
/// before it.
pub fn next_block_start(code: &[u8]) -> (r: Option<(usize, usize)>)
    ensures
        match r {
            Some((k, lines)) => k < code@.len() && k == first_opener(code@, 0) && lines == newlines(
                code@,
                k as int,
            ),
            None => first_opener(code@, 0) == code@.len(),
        },
{
    let mut local_offset: usize = 0;
    let mut lines_passed: usize = 0;
    while local_offset < code.len()
        invariant
            local_offset <= code@.len(),
            first_opener(code@, 0) == first_opener(code@, local_offset as int),
            lines_passed == newlines(code@, local_offset as int),
        decreases code@.len() - local_offset,
    {
        if code[local_offset] == OPEN_BRACE && local_offset + 1 < code.len() && code[local_offset
            + 1] == OPEN_BRACE {
            return Some((local_offset, lines_passed));
        }
        proof {
            lemma_newlines_bound(code@, local_offset as int);
        }
        if code[local_offset] == NEWLINE {
            lines_passed += 1;
        }
        local_offset += 1;
    }
    None
}

/// There are no more newlines before a position than bytes.
pub proof fn lemma_newlines_bound(s: Seq<u8>, upto: int)
    requires
        0 <= upto,
    ensures
        newlines(s, upto) <= upto,
    decreases upto,
{
    if upto > 0 {
        lemma_newlines_bound(s, upto - 1);
    }
}

/// Whether every byte of `code` is a space, a tab or a newline.
pub fn is_whitespace_only(code: &[u8]) -> (r: bool)
    ensures
        r == (forall|i: int| 0 <= i < code@.len() ==> is_blank(#[trigger] code@[i])),
{
    let mut i: usize = 0;
    while i < code.len()
        invariant
            i <= code@.len(),
            forall|j: int| 0 <= j < i ==> is_blank(#[trigger] code@[j]),
        decreases code@.len() - i,
    {
        let b = code[i];
        if !(b == SPACE || b == TAB || b == NEWLINE) {
            return false;
        }
        i += 1;
    }
    true
}

/// `input` without the spaces, tabs and newlines at its two ends.
pub fn btrim(input: &[u8]) -> (r: &[u8])
    ensures
        r@ == trimmed(input@),
{
    let mut start_offset: usize = 0;
    while start_offset < input.len() && (input[start_offset] == SPACE || input[start_offset] == TAB
        || input[start_offset] == NEWLINE)
        invariant
            start_offset <= input@.len(),
            trim_start(input@, 0) == trim_start(input@, start_offset as int),
        decreases input@.len() - start_offset,
    {
        start_offset += 1;
    }
    let mut end_offset: usize = input.len();
    while end_offset > 0 && (input[end_offset - 1] == SPACE || input[end_offset - 1] == TAB
        || input[end_offset - 1] == NEWLINE)
        invariant
            end_offset <= input@.len(),
            trim_end(input@, input@.len() as int) == trim_end(input@, end_offset as int),
        decreases end_offset,
    {
        end_offset -= 1;
    }
    if start_offset < end_offset {
        slice_subrange(input, start_offset, end_offset)
    } else {
        let r = slice_subrange(input, 0, 0);
        r
    }
}

/// The modes of the lexer.
#[derive(Debug, Clone, Copy, PartialEq, Eq)]
pub enum LexerState {
    /// Between directives: the lexer reads markup up to the next `{{`.
    InMarkup,
    /// Inside `{{ ... }}`: the lexer reads keywords, operators, literals and
    /// variables.
    InDirective,
    /// After an error: the lexer yields nothing more.
    Halted,
}

/// The three tokens that carry text.
#[derive(Debug, Clone, Copy, PartialEq, Eq)]
pub enum TextKind {
    Template,
    Literal,
    Var,
}

/// The token of the given kind with the given text.
pub open spec fn text_token(kind: TextKind, text: Seq<char>) -> TokenView {
    match kind {
        TextKind::Template => TokenView::Template(text),
        TextKind::Literal => TokenView::Literal(text),
        TextKind::Var => TokenView::Var(text),
    }
}

/// What the lexer yields at one step: a token with the place where it ends,
/// or an error.
pub type Lexeme = Result<(TokenView, Span), TemplusError>;

/// One step of the lexer: what it yields, and where and in which mode it
/// goes on.
pub ghost struct LexStep {
    pub item: Option<Lexeme>,
    pub cursor: int,
    pub state: LexerState,
}

/// The step that yields `token`, ending at `next`.
pub open spec fn emit(code: Seq<u8>, token: TokenView, next: int, state: LexerState) -> LexStep {
    LexStep { item: Some(Ok((token, span_at(code, next)))), cursor: next, state }
}

/// The step that fails at position `at` and halts the lexer there.
pub open spec fn halt(code: Seq<u8>, fault: LexFault, at: int) -> LexStep {
    LexStep {
        item: Some(Err(TemplusError::LexerError(fault, span_at(code, at)))),
        cursor: at,
        state: LexerState::Halted,
    }
}

/// The step that yields a token with the text that `bytes` encode, or fails
/// at `at` where they are not valid UTF-8.
pub open spec fn emit_text(
    code: Seq<u8>,
    kind: TextKind,
    bytes: Seq<u8>,
    at: int,
    next: int,
    state: LexerState,
) -> LexStep {
    if valid_utf8(bytes) {
        emit(code, text_token(kind, decode_utf8(bytes)), next, state)
    } else {
        halt(code, LexFault::InvalidText, at)
    }
}

/// Whether `}}` stands at index `i` of `s`.
pub open spec fn closer_at(s: Seq<u8>, i: int) -> bool {
    0 <= i && i + 1 < s.len() && s[i] == CLOSE_BRACE && s[i + 1] == CLOSE_BRACE
}

/// A step in markup, from position `c`. Skipped bytes are passed over. At
/// `{{` the step yields `CodeStart` and enters the directive. Before it, the
/// markup up to the next `{{`, or to the end of the input, is yielded
/// trimmed, as one `Template`.
#[verifier::opaque]
pub open spec fn markup_step(code: Seq<u8>, c: int) -> LexStep {
    let start = first_where(code, c, Until::Visible);
    if start >= code.len() {
        LexStep { item: None, cursor: code.len() as int, state: LexerState::InMarkup }
    } else {
        let open = first_opener(code, start);
        if open == start {
            emit(code, TokenView::CodeStart, start + 2, LexerState::InDirective)
        } else {
            emit_text(
                code,
                TextKind::Template,
                trimmed(code.subrange(start, open)),
                start,
                open,
                LexerState::InMarkup,
            )
        }
    }
}

/// A step inside a directive, from position `c`. Skipped bytes are passed
/// over, then the first byte decides: `}}` leaves the directive; a quote
/// opens a string that runs to the same quote; a digit opens a run of
/// digits; a dot opens a variable, and anything else a word, both of which
/// run to the next space or `}`.
#[verifier::opaque]
pub open spec fn directive_step(code: Seq<u8>, c: int) -> LexStep {
    let start = first_where(code, c, Until::Visible);
    if start >= code.len() {
        halt(code, LexFault::UnterminatedDirective, code.len() as int)
    } else if closer_at(code, start) {
        emit(code, TokenView::CodeEnd, start + 2, LexerState::InMarkup)
    } else if code[start] == SINGLE_QUOTE || code[start] == DOUBLE_QUOTE {
        let close = first_where(code, start + 1, Until::Byte(code[start]));
        if close >= code.len() {
            halt(code, LexFault::UnterminatedString, start)
        } else {
            emit_text(
                code,
                TextKind::Literal,
                code.subrange(start + 1, close),
                start,
                close + 1,
                LexerState::InDirective,
            )
        }
    } else if is_digit(code[start]) {
        let end = first_where(code, start, Until::NonDigit);
        emit_text(
            code,
            TextKind::Literal,
            code.subrange(start, end),
            start,
            end,
            LexerState::InDirective,
        )
    } else if code[start] == DOT {
        let end = first_where(code, start + 1, word_end());
        if end >= code.len() {
            halt(code, LexFault::UnterminatedDirective, start)
        } else {
            emit_text(
                code,
                TextKind::Var,
                code.subrange(start + 1, end),
                start,
                end,
                LexerState::InDirective,
            )
        }
    } else {
        let end = first_where(code, start, word_end());
        if end >= code.len() {
            halt(code, LexFault::UnterminatedDirective, start)
        } else {
            match keyword(code.subrange(start, end)) {
                Some(token) => emit(code, token, end, LexerState::InDirective),
                None => halt(code, LexFault::UnknownWord, start),
            }
        }
    }
}

/// One step of the lexer over `code`, from position `c` in mode `state`.
pub open spec fn lex_step(code: Seq<u8>, c: int, state: LexerState) -> LexStep {
    match state {
        LexerState::InMarkup => markup_step(code, c),
        LexerState::InDirective => directive_step(code, c),
        LexerState::Halted => LexStep { item: None, cursor: c, state: LexerState::Halted },
    }
}

/// Everything the lexer yields from position `c` in mode `state` on: its
/// tokens in order, ended by the first error if there is one.
pub open spec fn lexemes(code: Seq<u8>, c: int, state: LexerState) -> Seq<Lexeme>
    decreases code.len() - c,
{
    let step = lex_step(code, c, state);
    match step.item {
        None => Seq::empty(),
        Some(Err(e)) => seq![Err(e)],
        Some(Ok(t)) => if c < step.cursor <= code.len() {
            seq![Ok(t)] + lexemes(code, step.cursor, step.state)
        } else {
            seq![Ok(t)]
        },
    }
}

/// Every step of the lexer stays inside the input, and a step that yields
/// a token consumes at least one byte.
pub proof fn lemma_step_advances(code: Seq<u8>, c: int, state: LexerState)
    requires
        0 <= c <= code.len(),
    ensures
        c <= lex_step(code, c, state).cursor <= code.len(),
        lex_step(code, c, state).item matches Some(Ok(_)) ==> c < lex_step(code, c, state).cursor,
        lex_step(code, c, state).item is None ==> lex_step(
            code,
            lex_step(code, c, state).cursor,
            lex_step(code, c, state).state,
        ).item is None,
        lex_step(code, c, state).item matches Some(Err(_)) ==> lex_step(code, c, state).state
            == LexerState::Halted,
{
    reveal(markup_step);
    reveal(directive_step);
    let start = first_where(code, c, Until::Visible);
    lemma_first_where(code, c, Until::Visible);
    if start < code.len() {
        lemma_first_opener(code, start);
        lemma_first_where(code, start + 1, Until::Byte(code[start]));
        lemma_first_where(code, start, Until::NonDigit);
        lemma_first_where(code, start, word_end());
    }
}

/// Blank markup yields no token: the text of a `Template` is cut from a
/// run of markup that is not empty and neither begins nor ends with a
/// space, a tab or a newline.
pub proof fn lemma_markup_is_never_blank(code: Seq<u8>, c: int)
    requires
        0 <= c <= code.len(),
    ensures
        ({
            let start = first_where(code, c, Until::Visible);
            let open = first_opener(code, start);
            let run = trimmed(code.subrange(start, open));
            markup_step(code, c).item matches Some(Ok((TokenView::Template(text), _))) ==> {
                &&& start < open <= code.len()
                &&& valid_utf8(run)
                &&& text == decode_utf8(run)
                &&& run.len() > 0
                &&& !is_blank(run[0])
                &&& !is_blank(run.last())
            }
        }),
{
    reveal(markup_step);
    let start = first_where(code, c, Until::Visible);
    lemma_first_where(code, c, Until::Visible);
    if start < code.len() {
        let open = first_opener(code, start);
        lemma_first_opener(code, start);
        if open != start {
            let piece = code.subrange(start, open);
            lemma_trimmed(piece);
        }
    }
}

/// The lexer stops at its first error: only the last of what it yields can
/// be an error.
pub proof fn lemma_error_is_last(code: Seq<u8>, c: int, state: LexerState)
    requires
        0 <= c <= code.len(),
    ensures
        forall|i: int|
            0 <= i < lexemes(code, c, state).len() - 1 ==> (#[trigger] lexemes(
                code,
                c,
                state,
            )[i]) is Ok,
    decreases code.len() - c,
{
    lemma_step_advances(code, c, state);
    let step = lex_step(code, c, state);
    if let Some(Ok(t)) = step.item {
        lemma_error_is_last(code, step.cursor, step.state);
    }
}

/// Whatever the lexer fails with is a lexer error.
pub proof fn lemma_lexemes_fail_as_lexer(code: Seq<u8>, c: int, state: LexerState)
    requires
        0 <= c <= code.len(),
    ensures
        forall|i: int|
            0 <= i < lexemes(code, c, state).len() ==> (#[trigger] lexemes(code, c, state)[i]
                matches Err(e) ==> e is LexerError),
    decreases code.len() - c,
{
    reveal(markup_step);
    reveal(directive_step);
    lemma_step_advances(code, c, state);
    let step = lex_step(code, c, state);
    let all = lexemes(code, c, state);
    if let Some(Ok(t)) = step.item {
        lemma_lexemes_fail_as_lexer(code, step.cursor, step.state);
        let rest = lexemes(code, step.cursor, step.state);
        assert forall|i: int| 0 <= i < all.len() implies (#[trigger] all[i] matches Err(e)
            ==> e is LexerError) by {
            if i > 0 {
                assert(all[i] == rest[i - 1]);
            }
        }
    }
}

/// Whether `item` is the error of a token whose text is not valid UTF-8.
pub open spec fn is_invalid_text(item: Lexeme) -> bool {
    item matches Err(TemplusError::LexerError(LexFault::InvalidText, _))
}

/// On a source that is valid UTF-8, a step of the lexer from a place where
/// a character begins ends at such a place, and the text of its token is
/// valid.
pub proof fn lemma_step_keeps_text(code: Seq<u8>, c: int, state: LexerState)
    requires
        valid_utf8(code),
        starts_char(code, c),
    ensures
        starts_char(code, lex_step(code, c, state).cursor),
        lex_step(code, c, state).item matches Some(item) ==> !is_invalid_text(item),
{
    reveal(markup_step);
    reveal(directive_step);
    let start = first_where(code, c, Until::Visible);
    lemma_first_where(code, c, Until::Visible);
    lemma_after_ascii_run(code, c, start);
    if start < code.len() {
        if state == LexerState::InMarkup {
            let open = first_opener(code, start);
            lemma_first_opener(code, start);
            if open == start {
                lemma_after_ascii(code, start + 1);
            } else {
                let piece = code.subrange(start, open);
                lemma_trimmed(piece);
                let a = trim_start(piece, 0);
                let b = trim_end(piece, piece.len() as int);
                if b < piece.len() {
                    assert(piece[b] == code[start + b]);
                }
                lemma_piece_is_text(code, start, start + b);
                assert(piece.subrange(a, b) =~= code.subrange(start, start + b));
            }
        } else if state == LexerState::InDirective {
            if closer_at(code, start) {
                lemma_after_ascii(code, start + 1);
            } else if code[start] == SINGLE_QUOTE || code[start] == DOUBLE_QUOTE {
                let close = first_where(code, start + 1, Until::Byte(code[start]));
                lemma_first_where(code, start + 1, Until::Byte(code[start]));
                lemma_after_ascii(code, start);
                if close < code.len() {
                    lemma_piece_is_text(code, start + 1, close);
                    lemma_after_ascii(code, close);
                }
            } else if is_digit(code[start]) {
                let end = first_where(code, start, Until::NonDigit);
                lemma_first_where(code, start, Until::NonDigit);
                lemma_after_ascii_run(code, start, end);
                lemma_piece_is_text(code, start, end);
            } else if code[start] == DOT {
                let end = first_where(code, start + 1, word_end());
                lemma_first_where(code, start + 1, word_end());
                lemma_after_ascii(code, start);
                if end < code.len() {
                    lemma_piece_is_text(code, start + 1, end);
                }
            } else {
                lemma_first_where(code, start, word_end());
            }
        }
    }
}

/// On a source that is valid UTF-8, the lexer never fails for the text of
/// a token.
pub proof fn lemma_lexemes_are_text(code: Seq<u8>, c: int, state: LexerState)
    requires
        valid_utf8(code),
        starts_char(code, c),
    ensures
        forall|i: int|
            0 <= i < lexemes(code, c, state).len() ==> !is_invalid_text(
                #[trigger] lexemes(code, c, state)[i],
            ),
    decreases code.len() - c,
{
    lemma_step_keeps_text(code, c, state);
    let step = lex_step(code, c, state);
    let all = lexemes(code, c, state);
    if let Some(Ok(t)) = step.item {
        if c < step.cursor <= code.len() {
            lemma_lexemes_are_text(code, step.cursor, step.state);
            let rest = lexemes(code, step.cursor, step.state);
            assert forall|i: int| 0 <= i < all.len() implies !is_invalid_text(#[trigger] all[i]) by {
                if i > 0 {
                    assert(all[i] == rest[i - 1]);
                }
            }
        }
    }
}

/// What the lexer has still to yield begins with what its next step yields,
/// and goes on with what it has to yield after that step.
pub proof fn lemma_lexemes_step(code: Seq<u8>, c: int, state: LexerState)
    requires
        0 <= c <= code.len(),
    ensures
        ({
            let step = lex_step(code, c, state);
            let rest = lexemes(code, step.cursor, step.state);
            match step.item {
                None => lexemes(code, c, state).len() == 0 && rest.len() == 0,
                Some(Err(e)) => lexemes(code, c, state) == seq![Err::<(TokenView, Span), _>(e)]
                    && rest.len() == 0,
                Some(Ok(t)) => lexemes(code, c, state) == seq![Ok::<_, TemplusError>(t)] + rest,
            }
        }),
{
    lemma_step_advances(code, c, state);
}

/// What the lexer yields at one step, as a mathematical value.
pub open spec fn lexeme_of(item: Result<(Token, Span), TemplusError>) -> Lexeme {
    match item {
        Err(e) => Err(e),
        Ok((token, span)) => Ok((token@, span)),
    }
}

/// What a call of [`Lexer::next`] returns, as a mathematical value.
pub open spec fn lexeme_view(r: Option<Result<(Token, Span), TemplusError>>) -> Option<Lexeme> {
    match r {
        None => None,
        Some(item) => Some(lexeme_of(item)),
    }
}

/// The line and the column of position `to`, from those of position `from`.
fn track(code: &[u8], from: usize, to: usize, line: usize, column: usize) -> (r: (usize, usize))
    requires
        from <= to <= code@.len(),
        line == line_of(code@, from as int),
        column == from - line_start(code@, from as int),
    ensures
        r.0 == line_of(code@, to as int),
        r.1 == to - line_start(code@, to as int),
{
    let mut i: usize = from;
    let mut line: usize = line;
    let mut column: usize = column;
    while i < to
        invariant
            from <= i <= to <= code@.len(),
            line == line_of(code@, i as int),
            column == i - line_start(code@, i as int),
        decreases to - i,
    {
        proof {
            lemma_line_start_bound(code@, i as int);
        }
        if code[i] == NEWLINE {
            if line < usize::MAX {
                line += 1;
            }
            column = 0;
        } else {
            column += 1;
        }
        i += 1;
    }
    (line, column)
}

/// A line begins at or before every position on it.
pub proof fn lemma_line_start_bound(s: Seq<u8>, pos: int)
    requires
        0 <= pos,
    ensures
        0 <= line_start(s, pos) <= pos,
    decreases pos,
{
    if pos > 0 && s[pos - 1] != NEWLINE {
        lemma_line_start_bound(s, pos - 1);
    }
}

/// A scanner over the bytes of a template source. It goes forward only,
/// yields one token per call, and after an error or at the end of the input
/// yields nothing more.
pub struct Lexer<'a> {
    code: &'a [u8],
    cursor: usize,
    line_cursor: usize,
    column_cursor: usize,
    state: LexerState,
}

impl<'a> Lexer<'a> {
    /// The cursor lies inside the input, and the line and column counters
    /// are those of the cursor.
    #[verifier::type_invariant]
    spec fn wf(self) -> bool {
        &&& self.cursor <= self.code@.len()
        &&& self.line_cursor == line_of(self.code@, self.cursor as int)
        &&& self.column_cursor == self.cursor - line_start(self.code@, self.cursor as int)
    }

    /// The bytes that the lexer reads.
    pub closed spec fn source(&self) -> Seq<u8> {
        self.code@
    }

    /// The index of the next byte to read.
    pub closed spec fn position(&self) -> int {
        self.cursor as int
    }

    /// The mode the lexer is in.
    pub closed spec fn mode(&self) -> LexerState {
        self.state
    }

    /// Everything that the lexer has still to yield.
    pub open spec fn remaining(&self) -> Seq<Lexeme> {
        lexemes(self.source(), self.position(), self.mode())
    }

    /// A lexer at the start of `code`, in markup.
    pub fn new(code: &'a [u8]) -> (r: Self)
        ensures
            r.source() == code@,
            r.position() == 0,
            r.mode() == LexerState::InMarkup,
    {
        Lexer { code, cursor: 0, line_cursor: 1, column_cursor: 0, state: LexerState::InMarkup }
    }

    /// Moves the cursor forward by `bytes`.
    fn advance(&mut self, bytes: usize)
        requires
            old(self).cursor + bytes <= old(self).code@.len(),
        ensures
            final(self).code == old(self).code,
            final(self).state == old(self).state,
            final(self).cursor == old(self).cursor + bytes,
    {
        proof {
            use_type_invariant(&*self);
        }
        let to = self.code.len().min(self.cursor + bytes);
        let (line, column) = track(self.code, self.cursor, to, self.line_cursor, self.column_cursor);
        *self = Lexer {
            code: self.code,
            cursor: to,
            line_cursor: line,
            column_cursor: column,
            state: self.state,
        };
    }

    /// Sets the mode.
    fn enter(&mut self, state: LexerState)
        ensures
            final(self).code == old(self).code,
            final(self).cursor == old(self).cursor,
            final(self).state == state,
    {
        proof {
            use_type_invariant(&*self);
        }
        *self = Lexer {
            code: self.code,
            cursor: self.cursor,
            line_cursor: self.line_cursor,
            column_cursor: self.column_cursor,
            state,
        };
    }

    /// Passes over the bytes that stand between tokens.
    fn skip_whitespace(&mut self)
        ensures
            final(self).code == old(self).code,
            final(self).state == old(self).state,
            final(self).cursor == first_where(
                old(self).code@,
                old(self).cursor as int,
                Until::Visible,
            ),
    {
        proof {
            use_type_invariant(&*self);
        }
        let mut to: usize = self.cursor;
        while to < self.code.len() && (self.code[to] <= SPACE || self.code[to] == DELETE)
            invariant
                self.cursor <= to <= self.code@.len(),
                first_where(self.code@, self.cursor as int, Until::Visible) == first_where(
                    self.code@,
                    to as int,
                    Until::Visible,
                ),
            decreases self.code@.len() - to,
        {
            to += 1;
        }
        self.advance(to - self.cursor);
    }

    /// The place of the cursor.
    fn loc(&self) -> (r: Span)
        ensures
            r == span_at(self.code@, self.cursor as int),
    {
        proof {
            use_type_invariant(self);
        }
        Span { current_line: self.line_cursor, current_column: self.column_cursor }
    }

    /// Stops the lexer at the cursor and reports `fault` there.
    fn fail(&mut self, fault: LexFault) -> (r: Option<Result<(Token, Span), TemplusError>>)
        ensures
            final(self).code == old(self).code,
            final(self).cursor == old(self).cursor,
            final(self).state == LexerState::Halted,
            lexeme_view(r) == halt(old(self).code@, fault, old(self).cursor as int).item,
    {
        proof {
            use_type_invariant(&*self);
        }
        let at = self.loc();
        self.enter(LexerState::Halted);
        Some(Err(TemplusError::LexerError(fault, at)))
    }

    /// Moves to `next` in mode `state` and yields `token` there.
    fn yield_token(&mut self, token: Token, next: usize, state: LexerState) -> (r: Option<
        Result<(Token, Span), TemplusError>,
    >)
        requires
            old(self).cursor <= next <= old(self).code@.len(),
        ensures
            final(self).code == old(self).code,
            final(self).cursor == next,
            final(self).state == state,
            lexeme_view(r) == emit(old(self).code@, token@, next as int, state).item,
    {
        self.advance(next - self.cursor);
        self.enter(state);
        let at = self.loc();
        Some(Ok((token, at)))
    }

    /// Yields the token of kind `kind` whose text `bytes` encode and moves
    /// to `next`, or fails at the cursor where `bytes` are no text.
    fn yield_text(&mut self, kind: TextKind, bytes: &[u8], next: usize, state: LexerState) -> (r:
        Option<Result<(Token, Span), TemplusError>>)
        requires
            old(self).cursor <= next <= old(self).code@.len(),
        ensures
            final(self).code == old(self).code,
            ({
                let step = emit_text(
                    old(self).code@,
                    kind,
                    bytes@,
                    old(self).cursor as int,
                    next as int,
                    state,
                );
                &&& final(self).cursor == step.cursor
                &&& final(self).state == step.state
                &&& lexeme_view(r) == step.item
            }),
    {
        match text_from_utf8(slice_to_vec(bytes)) {
            Some(text) => {
                let token = match kind {
                    TextKind::Template => Token::Template(text),
                    TextKind::Literal => Token::Literal(text),
                    TextKind::Var => Token::Var(text),
                };
                self.yield_token(token, next, state)
            },
            None => self.fail(LexFault::InvalidText),
        }
    }

    /// One step in markup.
    fn next_in_markup(&mut self) -> (r: Option<Result<(Token, Span), TemplusError>>)
        requires
            old(self).state == LexerState::InMarkup,
        ensures
            final(self).code == old(self).code,
            ({
                let step = markup_step(old(self).code@, old(self).cursor as int);
                &&& final(self).cursor == step.cursor
                &&& final(self).state == step.state
                &&& lexeme_view(r) == step.item
            }),
    {
        reveal(markup_step);
        proof {
            use_type_invariant(&*self);
        }
        self.skip_whitespace();
        proof {
            use_type_invariant(&*self);
        }
        let code = self.code;
        let start = self.cursor;
        if start >= code.len() {
            return None;
        }
        let rest = slice_subrange(code, start, code.len());
        proof {
            lemma_first_opener_tail(code@, start as int, 0);
            lemma_first_opener(code@, start as int);
        }
        match next_block_start(rest) {
            None => {
                let run = btrim(rest);
                self.yield_text(TextKind::Template, run, code.len(), LexerState::InMarkup)
            },
            Some((offset, _)) => {
                if offset == 0 {
                    self.yield_token(Token::CodeStart, start + 2, LexerState::InDirective)
                } else {
                    let run = btrim(slice_subrange(code, start, start + offset));
                    self.yield_text(TextKind::Template, run, start + offset, LexerState::InMarkup)
                }
            },
        }
    }

    /// One step inside a directive.
    fn next_in_directive(&mut self) -> (r: Option<Result<(Token, Span), TemplusError>>)
        ensures
            final(self).code == old(self).code,
            ({
                let step = directive_step(old(self).code@, old(self).cursor as int);
                &&& final(self).cursor == step.cursor
                &&& final(self).state == step.state
                &&& lexeme_view(r) == step.item
            }),
    {
        reveal(directive_step);
        proof {
            use_type_invariant(&*self);
        }
        self.skip_whitespace();
        proof {
            use_type_invariant(&*self);
        }
        let code = self.code;
        let start = self.cursor;
        if start >= code.len() {
            return self.fail(LexFault::UnterminatedDirective);
        }
        let first = code[start];
        if first == CLOSE_BRACE && start + 1 < code.len() && code[start + 1] == CLOSE_BRACE {
            return self.yield_token(Token::CodeEnd, start + 2, LexerState::InMarkup);
        }
        if first == SINGLE_QUOTE || first == DOUBLE_QUOTE {
            let rest = slice_subrange(code, start + 1, code.len());
            proof {
                lemma_first_where_tail(code@, start + 1, 0, Until::Byte(first));
            }
            match offset_to_delimiter(rest, first) {
                None => self.fail(LexFault::UnterminatedString),
                Some(offset) => {
                    let inner = slice_subrange(code, start + 1, start + 1 + offset);
                    self.yield_text(
                        TextKind::Literal,
                        inner,
                        start + offset + 2,
                        LexerState::InDirective,
                    )
                },
            }
        } else if DIGIT_ZERO <= first && first <= DIGIT_NINE {
            let rest = slice_subrange(code, start, code.len());
            proof {
                lemma_first_where_tail(code@, start as int, 0, Until::NonDigit);
            }
            let end = match offset_to_number_end(rest) {
                Some(offset) => start + offset,
                None => code.len(),
            };
            let digits = slice_subrange(code, start, end);
            self.yield_text(TextKind::Literal, digits, end, LexerState::InDirective)
        } else if first == DOT {
            let rest = slice_subrange(code, start + 1, code.len());
            proof {
                lemma_first_where_tail(code@, start + 1, 0, word_end());
            }
            match offset_to_any_delimiter(rest, &[SPACE, CLOSE_BRACE]) {
                None => self.fail(LexFault::UnterminatedDirective),
                Some(offset) => {
                    let name = slice_subrange(code, start + 1, start + 1 + offset);
                    self.yield_text(
                        TextKind::Var,
                        name,
                        start + 1 + offset,
                        LexerState::InDirective,
                    )
                },
            }
        } else {
            let rest = slice_subrange(code, start, code.len());
            proof {
                lemma_first_where_tail(code@, start as int, 0, word_end());
            }
            match offset_to_any_delimiter(rest, &[SPACE, CLOSE_BRACE]) {
                None => self.fail(LexFault::UnterminatedDirective),
                Some(offset) => {
                    let word = slice_subrange(code, start, start + offset);
                    match Token::try_from_bslice(word) {
                        Some(token) => self.yield_token(
                            token,
                            start + offset,
                            LexerState::InDirective,
                        ),
                        None => self.fail(LexFault::UnknownWord),
                    }
                },
            }
        }
    }

    /// The next token with the place where it ends, or the error that stops
    /// the lexer; `None` at the end of the input and after an error.
    pub fn next(&mut self) -> (r: Option<Result<(Token, Span), TemplusError>>)
        ensures
            final(self).source() == old(self).source(),
            ({
                let step = lex_step(old(self).source(), old(self).position(), old(self).mode());
                &&& final(self).position() == step.cursor
                &&& final(self).mode() == step.state
                &&& lexeme_view(r) == step.item
            }),
            lexeme_view(r) == (if old(self).remaining().len() > 0 {
                Some(old(self).remaining()[0])
            } else {
                None
            }),
            final(self).remaining() == (if old(self).remaining().len() > 0 {
                old(self).remaining().drop_first()
            } else {
                old(self).remaining()
            }),
    {
        proof {
            use_type_invariant(&*self);
            lemma_lexemes_step(self.code@, self.cursor as int, self.state);
        }
        let r = match self.state {
            LexerState::Halted => None,
            LexerState::InMarkup => self.next_in_markup(),
            LexerState::InDirective => self.next_in_directive(),
        };
        r
    }
}

} // verus!
