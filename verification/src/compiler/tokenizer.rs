//! A splitter of a source into `{{ }}`, `{% %}` and `{# #}` blocks and the
//! markup between them.
use super::error::TemplusError;
use super::lexer::{first_where, Until, CLOSE_BRACE, OPEN_BRACE, SPACE, TAB};
use crate::text::{text_from_utf8, trim_text, white_trimmed};
use vstd::prelude::*;
use vstd::slice::{slice_subrange, slice_to_vec};
use vstd::utf8::{decode_utf8, valid_utf8};

verus! {

pub const PERCENT: u8 = 0x25;

pub const HASH: u8 = 0x23;

/// The kinds of block that the splitter tells apart.
#[derive(Debug, Clone, Copy, PartialEq, Eq)]
pub enum BlockType {
    /// `{{ ... }}`
    Variable,
    /// `{# ... #}`
    Comment,
    /// `{% ... %}`
    Code,
    /// Everything between blocks.
    Html,
}

/// One piece of the source: a block without its markers, or the markup
/// between two blocks. `start` and `end` are where the piece, markers
/// included, stands in the source.
#[derive(Debug)]
pub struct BlockSpan<'a> {
    pub start: usize,
    pub end: usize,
    pub code: &'a [u8],
    pub block_type: BlockType,
}

impl<'a> BlockSpan<'a> {
    /// The text of the piece, without the white space at its two ends;
    /// `None` where the bytes of the piece are not valid UTF-8.
    pub fn code(&self) -> (r: Option<String>)
        ensures
            match r {
                Some(text) => valid_utf8(self.code@) && text@ == white_trimmed(
                    decode_utf8(self.code@),
                ),
                None => !valid_utf8(self.code@),
            },
    {
        match text_from_utf8(slice_to_vec(self.code)) {
            Some(text) => Some(trim_text(text.as_str()).to_owned()),
            None => None,
        }
    }

    /// The kind of the piece.
    pub fn block_type(&self) -> (r: &BlockType)
        ensures
            *r == self.block_type,
    {
        &self.block_type
    }
}

/// The kind of block that the byte `b` marks when it stands next to the
/// brace `brace`: the brace itself, `%` or `#`.
pub open spec fn marked(brace: u8, b: u8) -> Option<BlockType> {
    if b == brace {
        Some(BlockType::Variable)
    } else if b == PERCENT {
        Some(BlockType::Code)
    } else if b == HASH {
        Some(BlockType::Comment)
    } else {
        None
    }
}

/// The kind of block that opens at index `i` of `code`: `{` stands there,
/// followed by `{`, `%` or `#`.
pub open spec fn opens_at(code: Seq<u8>, i: int) -> Option<BlockType> {
    if 0 <= i && i + 1 < code.len() && code[i] == OPEN_BRACE {
        marked(OPEN_BRACE, code[i + 1])
    } else {
        None
    }
}

/// The kind of block that closes at index `i` of `code`: `}` stands there,
/// with `}`, `%` or `#` before it.
pub open spec fn closes_at(code: Seq<u8>, i: int) -> Option<BlockType> {
    if 1 <= i < code.len() && code[i] == CLOSE_BRACE {
        marked(CLOSE_BRACE, code[i - 1])
    } else {
        None
    }
}

/// The first index at or after `from` at which a block opens, or the
/// length of `code` where none does.
pub open spec fn first_open(code: Seq<u8>, from: int) -> int
    decreases code.len() - from,
{
    if from >= code.len() {
        code.len() as int
    } else if opens_at(code, from) is Some {
        from
    } else {
        first_open(code, from + 1)
    }
}

/// The first index at or after `from` at which a block closes, or the
/// length of `code` where none does.
pub open spec fn first_close(code: Seq<u8>, from: int) -> int
    decreases code.len() - from,
{
    if from >= code.len() {
        code.len() as int
    } else if closes_at(code, from) is Some {
        from
    } else {
        first_close(code, from + 1)
    }
}

/// The index of the first byte of `haystack` that equals `needle`.
pub fn memchr(haystack: &[u8], needle: u8) -> (r: Option<usize>)
    ensures
        match r {
            Some(k) => k < haystack@.len() && k == first_where(haystack@, 0, Until::Byte(needle)),
            None => first_where(haystack@, 0, Until::Byte(needle)) == haystack@.len(),
        },
{
    let mut i: usize = 0;
    while i < haystack.len()
        invariant
            i <= haystack@.len(),
            first_where(haystack@, 0, Until::Byte(needle)) == first_where(
                haystack@,
                i as int,
                Until::Byte(needle),
            ),
        decreases haystack@.len() - i,
    {
        if haystack[i] == needle {
            return Some(i);
        }
        i += 1;
    }
    None
}

/// The index of the first byte of `code` that is neither a space nor a tab;
/// `None` where there is no such byte.
pub fn skip_whitespace(code: &[u8]) -> (r: Option<usize>)
    ensures
        match r {
            Some(k) => k < code@.len() && code@[k as int] != SPACE && code@[k as int] != TAB
                && forall|j: int| 0 <= j < k ==> code@[j] == SPACE || code@[j] == TAB,
            None => forall|j: int| 0 <= j < code@.len() ==> code@[j] == SPACE || code@[j] == TAB,
        },
{
    let mut local_offset: usize = 0;
    while local_offset < code.len()
        invariant
            local_offset <= code@.len(),
            forall|j: int| 0 <= j < local_offset ==> code@[j] == SPACE || code@[j] == TAB,
        decreases code@.len() - local_offset,
    {
        if code[local_offset] == SPACE || code[local_offset] == TAB {
            local_offset += 1;
        } else {
            return Some(local_offset);
        }
    }
    None
}

/// The kind of block that `b` marks next to the brace `brace`.
fn mark(brace: u8, b: u8) -> (r: Option<BlockType>)
    ensures
        r == marked(brace, b),
{
    if b == brace {
        Some(BlockType::Variable)
    } else if b == PERCENT {
        Some(BlockType::Code)
    } else if b == HASH {
        Some(BlockType::Comment)
    } else {
        None
    }
}

/// The first block that opens at or after `offset`: its kind, and how far
/// after `offset` it opens.
pub fn find_next_start(code: &[u8], offset: usize) -> (r: Option<(BlockType, usize)>)
    ensures
        match r {
            Some((kind, k)) => offset + k < code@.len() && offset + k == first_open(
                code@,
                offset as int,
            ) && opens_at(code@, offset + k) == Some(kind),
            None => first_open(code@, offset as int) >= code@.len(),
        },
{
    let mut at: usize = offset;
    while at < code.len()
        invariant
            offset <= at,
            at <= code@.len() || at == offset,
            first_open(code@, offset as int) == first_open(code@, at as int),
        decreases code@.len() - at,
    {
        if code[at] == OPEN_BRACE && at + 1 < code.len() {
            match mark(OPEN_BRACE, code[at + 1]) {
                Some(kind) => {
                    return Some((kind, at - offset));
                },
                None => {},
            }
        }
        at += 1;
    }
    None
}

/// The first block that closes at or after `offset`: its kind, and how far
/// after `offset` its last byte stands.
pub fn find_next_end(code: &[u8], offset: usize) -> (r: Option<(BlockType, usize)>)
    ensures
        match r {
            Some((kind, k)) => offset + k < code@.len() && offset + k == first_close(
                code@,
                offset as int,
            ) && closes_at(code@, offset + k) == Some(kind),
            None => first_close(code@, offset as int) >= code@.len(),
        },
{
    let mut at: usize = offset;
    while at < code.len()
        invariant
            offset <= at,
            at <= code@.len() || at == offset,
            first_close(code@, offset as int) == first_close(code@, at as int),
        decreases code@.len() - at,
    {
        if code[at] == CLOSE_BRACE && at >= 1 {
            match mark(CLOSE_BRACE, code[at - 1]) {
                Some(kind) => {
                    return Some((kind, at - offset));
                },
                None => {},
            }
        }
        at += 1;
    }
    None
}

/// The first block that opens at or after `offset`.
pub fn next_block(code: &[u8], offset: usize) -> (r: Option<(BlockType, usize)>)
    ensures
        match r {
            Some((kind, k)) => offset + k < code@.len() && offset + k == first_open(
                code@,
                offset as int,
            ) && opens_at(code@, offset + k) == Some(kind),
            None => first_open(code@, offset as int) >= code@.len(),
        },
{
    find_next_start(code, offset)
}

/// The mathematical value of a [`BlockSpan`].
pub ghost struct Piece {
    pub start: int,
    pub end: int,
    pub code: Seq<u8>,
    pub block_type: BlockType,
}

impl<'a> View for BlockSpan<'a> {
    type V = Piece;

    open spec fn view(&self) -> Piece {
        Piece {
            start: self.start as int,
            end: self.end as int,
            code: self.code@,
            block_type: self.block_type,
        }
    }
}

/// One step of the splitter: the piece or the error that it yields, and
/// the offset at which it goes on.
pub ghost struct Split {
    pub item: Option<Result<Piece, TemplusError>>,
    pub offset: int,
}

/// The markup between `from` and `to`.
pub open spec fn html(code: Seq<u8>, from: int, to: int) -> Split {
    Split {
        item: Some(
            Ok(
                Piece {
                    start: from,
                    end: to,
                    code: code.subrange(from, to),
                    block_type: BlockType::Html,
                },
            ),
        ),
        offset: to,
    }
}

/// One step of the splitter from `offset`. Markup runs up to the next
/// block, or to the end of the input. A block runs from where it opens to
/// the first place at or after that where any block closes, and is yielded
/// without its two markers of two bytes each; where nothing closes, or the
/// two markers would overlap, the block is unclosed, and the splitter
/// stays where it is.
pub open spec fn split_step(code: Seq<u8>, offset: int) -> Split {
    if offset >= code.len() {
        Split { item: None, offset }
    } else {
        let open = first_open(code, offset);
        if open >= code.len() {
            html(code, offset, code.len() as int)
        } else if open > offset {
            html(code, offset, open)
        } else {
            let kind = opens_at(code, offset)->0;
            let close = first_close(code, offset);
            if close >= code.len() || close < offset + 3 {
                Split { item: Some(Err(TemplusError::UnclosedBlock(kind))), offset }
            } else {
                Split {
                    item: Some(
                        Ok(
                            Piece {
                                start: offset,
                                end: close + 1,
                                code: code.subrange(offset + 2, close - 1),
                                block_type: kind,
                            },
                        ),
                    ),
                    offset: close + 1,
                }
            }
        }
    }
}

/// What a call of [`Tokenizer::next`] returns, as a mathematical value.
pub open spec fn piece_view(r: Option<Result<BlockSpan, TemplusError>>) -> Option<
    Result<Piece, TemplusError>,
> {
    match r {
        None => None,
        Some(Err(e)) => Some(Err(e)),
        Some(Ok(span)) => Some(Ok(span@)),
    }
}

/// Splits a source into blocks and the markup between them.
pub struct Tokenizer<'a> {
    code: &'a [u8],
    offset: usize,
}

impl<'a> Tokenizer<'a> {
    /// The bytes that the splitter reads.
    pub closed spec fn source(&self) -> Seq<u8> {
        self.code@
    }

    /// The index of the next byte to read.
    pub closed spec fn position(&self) -> int {
        self.offset as int
    }

    /// A splitter at the start of `code`.
    pub fn new(code: &'a [u8]) -> (r: Self)
        ensures
            r.source() == code@,
            r.position() == 0,
    {
        Tokenizer { code, offset: 0 }
    }

    /// The next piece of the source, or the error of a block that is not
    /// closed; `None` at the end of the input.
    pub fn next(&mut self) -> (r: Option<Result<BlockSpan<'a>, TemplusError>>)
        ensures
            final(self).source() == old(self).source(),
            final(self).position() == split_step(old(self).source(), old(self).position()).offset,
            piece_view(r) == split_step(old(self).source(), old(self).position()).item,
    {
        let code = self.code;
        let offset = self.offset;
        if offset >= code.len() {
            return None;
        }
        let (start_type, next_start) = match find_next_start(code, offset) {
            Some(found) => found,
            None => {
                self.offset = code.len();
                return Some(
                    Ok(
                        BlockSpan {
                            code: slice_subrange(code, offset, code.len()),
                            start: offset,
                            end: code.len(),
                            block_type: BlockType::Html,
                        },
                    ),
                );
            },
        };
        if next_start > 0 {
            self.offset = offset + next_start;
            return Some(
                Ok(
                    BlockSpan {
                        code: slice_subrange(code, offset, offset + next_start),
                        start: offset,
                        end: offset + next_start,
                        block_type: BlockType::Html,
                    },
                ),
            );
        }
        let next_end = match find_next_end(code, offset) {
            Some((_, next_end)) => next_end,
            None => {
                return Some(Err(TemplusError::UnclosedBlock(start_type)));
            },
        };
        if next_end < 3 {
            return Some(Err(TemplusError::UnclosedBlock(start_type)));
        }
        let block_end = offset + next_end + 1;
        self.offset = block_end;
        Some(
            Ok(
                BlockSpan {
                    code: slice_subrange(code, offset + 2, block_end - 2),
                    start: offset,
                    end: block_end,
                    block_type: start_type,
                },
            ),
        )
    }
}

} // verus!
