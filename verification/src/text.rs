//! Text: equality, integers in base ten, white space.
use crate::compiler::lexer::{DIGIT_NINE, DIGIT_ZERO};
use vstd::prelude::*;
use vstd::string::StringSliceAdditionalSpecFns;
use vstd::utf8::{
    decode_utf8, encode_utf8_decode_utf8, is_char_boundary_iff_not_is_continuation_byte,
    is_char_boundary_start_end_of_seq, is_continuation_byte, valid_utf8, valid_utf8_split,
};

verus! {

pub const PLUS: u8 = 0x2b;

pub const MINUS: u8 = 0x2d;

/// An ASCII digit.
pub open spec fn is_decimal(c: char) -> bool {
    '0' <= c <= '9'
}

/// The number that a run of digits spells in base ten; 0 for no digits.
pub open spec fn decimal(digits: Seq<char>) -> int
    decreases digits.len(),
{
    if digits.len() == 0 {
        0
    } else {
        decimal(digits.drop_last()) * 10 + (digits.last() as u32 - '0' as u32)
    }
}

/// Whether `text` begins with a sign.
pub open spec fn has_sign(text: Seq<char>) -> bool {
    text.len() > 0 && (text[0] == '-' || text[0] == '+')
}

/// `text` without its sign.
pub open spec fn unsigned_part(text: Seq<char>) -> Seq<char> {
    if has_sign(text) {
        text.drop_first()
    } else {
        text
    }
}

/// Whether `digits` holds digits only.
pub open spec fn all_decimal(digits: Seq<char>) -> bool {
    forall|i: int| 0 <= i < digits.len() ==> is_decimal(#[trigger] digits[i])
}

/// The integer that `text` spells: an optional sign and then one or more
/// digits, nothing else, with a value that a signed 64-bit integer holds.
pub open spec fn parse_integer(text: Seq<char>) -> Option<i64> {
    let digits = unsigned_part(text);
    let value = if has_sign(text) && text[0] == '-' {
        -decimal(digits)
    } else {
        decimal(digits)
    };
    if digits.len() > 0 && all_decimal(digits) && i64::MIN <= value <= i64::MAX {
        Some(value as i64)
    } else {
        None
    }
}

/// A run of digits spells no smaller a number than any of its beginnings.
pub proof fn lemma_decimal_grows(digits: Seq<char>, k: int)
    requires
        0 <= k <= digits.len(),
        all_decimal(digits),
    ensures
        0 <= decimal(digits.take(k)) <= decimal(digits),
    decreases digits.len() - k,
{
    if k == digits.len() {
        assert(digits.take(k) =~= digits);
        lemma_decimal_sign(digits);
    } else {
        lemma_decimal_grows(digits, k + 1);
        let next = digits.take(k + 1);
        assert(next.drop_last() =~= digits.take(k));
    }
}

/// A run of digits spells no negative number.
pub proof fn lemma_decimal_sign(digits: Seq<char>)
    requires
        all_decimal(digits),
    ensures
        0 <= decimal(digits),
    decreases digits.len(),
{
    if digits.len() > 0 {
        lemma_decimal_sign(digits.drop_last());
    }
}

/// The characters with the Unicode property `White_Space`.
pub open spec fn is_white_space(c: char) -> bool {
    ||| '\u{9}' <= c <= '\u{d}'
    ||| c == ' '
    ||| c == '\u{85}'
    ||| c == '\u{a0}'
    ||| c == '\u{1680}'
    ||| '\u{2000}' <= c <= '\u{200a}'
    ||| c == '\u{2028}'
    ||| c == '\u{2029}'
    ||| c == '\u{202f}'
    ||| c == '\u{205f}'
    ||| c == '\u{3000}'
}

/// The first index at or after `from` that holds no white space, or the
/// length of `text`.
pub open spec fn white_start(text: Seq<char>, from: int) -> int
    decreases text.len() - from,
{
    if from >= text.len() {
        text.len() as int
    } else if from >= 0 && !is_white_space(text[from]) {
        from
    } else {
        white_start(text, from + 1)
    }
}

/// One past the last index before `upto` that holds no white space, or 0.
pub open spec fn white_end(text: Seq<char>, upto: int) -> int
    decreases upto,
{
    if upto <= 0 {
        0
    } else if !is_white_space(text[upto - 1]) {
        upto
    } else {
        white_end(text, upto - 1)
    }
}

/// `text` without the white space at its two ends.
pub open spec fn white_trimmed(text: Seq<char>) -> Seq<char> {
    let a = white_start(text, 0);
    let b = white_end(text, text.len() as int);
    if a < b {
        text.subrange(a, b)
    } else {
        Seq::empty()
    }
}

/// `String::from_utf8`: the text that `bytes` encode, where they are valid
/// UTF-8, and `None` where they are not.
#[verifier::external_body]
pub(crate) fn text_from_utf8(bytes: Vec<u8>) -> (r: Option<String>)
    ensures
        r is Some <==> valid_utf8(bytes@),
        r matches Some(text) ==> text@ == decode_utf8(bytes@),
{
    match String::from_utf8(bytes) {
        Ok(text) => Some(text),
        Err(_) => None,
    }
}

/// `str::trim`: the part of `text` that is left when the characters with
/// the Unicode property `White_Space` are taken from its two ends.
#[verifier::external_body]
pub(crate) fn trim_text(text: &str) -> (r: &str)
    ensures
        r@ == white_trimmed(text@),
{
    text.trim()
}

/// Whether index `i` of `bytes` is where a character can begin: the end of
/// `bytes`, or a byte that does not continue a character.
pub open spec fn starts_char(bytes: Seq<u8>, i: int) -> bool {
    0 <= i <= bytes.len() && (i < bytes.len() ==> !is_continuation_byte(bytes[i]))
}

/// In valid UTF-8, the piece between two places where characters begin is
/// valid UTF-8 itself.
pub proof fn lemma_piece_is_text(bytes: Seq<u8>, a: int, b: int)
    requires
        valid_utf8(bytes),
        a <= b,
        starts_char(bytes, a),
        starts_char(bytes, b),
    ensures
        valid_utf8(bytes.subrange(a, b)),
{
    if b < bytes.len() {
        is_char_boundary_iff_not_is_continuation_byte(bytes, b);
    } else {
        is_char_boundary_start_end_of_seq(bytes);
    }
    valid_utf8_split(bytes, b);
    let head = bytes.subrange(0, b);
    if a < b {
        is_char_boundary_iff_not_is_continuation_byte(head, a);
    } else {
        is_char_boundary_start_end_of_seq(head);
    }
    valid_utf8_split(head, a);
    assert(head.subrange(a, head.len() as int) =~= bytes.subrange(a, b));
}

/// In valid UTF-8, a character begins after every ASCII byte.
pub proof fn lemma_after_ascii(bytes: Seq<u8>, i: int)
    requires
        valid_utf8(bytes),
        0 <= i < bytes.len(),
        bytes[i] < 0x80,
    ensures
        starts_char(bytes, i + 1),
{
    lemma_piece_is_text(bytes, i, bytes.len() as int);
    reveal_with_fuel(valid_utf8, 2);
}

/// In valid UTF-8, a character begins after a run of ASCII bytes that
/// begins where a character does.
pub proof fn lemma_after_ascii_run(bytes: Seq<u8>, a: int, b: int)
    requires
        valid_utf8(bytes),
        0 <= a <= b <= bytes.len(),
        starts_char(bytes, a),
        forall|i: int| a <= i < b ==> #[trigger] bytes[i] < 0x80,
    ensures
        starts_char(bytes, b),
{
    if a < b {
        lemma_after_ascii(bytes, b - 1);
    }
}

/// Whether two byte strings are equal.
pub fn same_bytes(a: &[u8], b: &[u8]) -> (r: bool)
    ensures
        r == (a@ == b@),
{
    if a.len() != b.len() {
        return false;
    }
    let mut i: usize = 0;
    while i < a.len()
        invariant
            i <= a.len(),
            a.len() == b.len(),
            forall|j: int| 0 <= j < i ==> a@[j] == b@[j],
        decreases a.len() - i,
    {
        if a[i] != b[i] {
            return false;
        }
        i += 1;
    }
    assert(a@ =~= b@);
    true
}

/// Whether two texts are equal.
pub fn same_text(a: &str, b: &str) -> (r: bool)
    ensures
        r == (a@ == b@),
{
    proof {
        encode_utf8_decode_utf8(a@);
        encode_utf8_decode_utf8(b@);
    }
    same_bytes(a.as_bytes(), b.as_bytes())
}

/// Reads `text` as a signed 64-bit integer in base ten.
pub fn parse_i64(text: &str) -> (r: Option<i64>)
    ensures
        r == parse_integer(text@),
{
    if !text.is_ascii() {
        proof {
            let digits = unsigned_part(text@);
            let i = choose|i: int| 0 <= i < text@.len() && !('\0' <= #[trigger] text@[i] <= '\u{7f}');
            if has_sign(text@) {
                assert(!is_decimal(digits[i - 1]));
            }
        }
        return None;
    }
    let bytes = text.as_bytes();
    let n = bytes.len();
    if n == 0 {
        return None;
    }
    let negative = bytes[0] == MINUS;
    let signed = negative || bytes[0] == PLUS;
    let first: usize = if signed {
        1
    } else {
        0
    };
    if first == n {
        return None;
    }
    let ghost digits = unsigned_part(text@);
    let limit: u64 = if negative {
        0x8000_0000_0000_0000
    } else {
        0x7fff_ffff_ffff_ffff
    };
    let mut acc: u64 = 0;
    let mut i: usize = first;
    while i < n
        invariant
            first <= i <= n,
            n == bytes@.len(),
            n == text@.len(),
            digits.len() == n - first,
            forall|j: int| 0 <= j < n ==> text@[j] as u8 == bytes@[j],
            forall|j: int| 0 <= j < n ==> '\0' <= #[trigger] text@[j] <= '\u{7f}',
            forall|j: int| 0 <= j < digits.len() ==> digits[j] == text@[j + first],
            forall|j: int| 0 <= j < i - first ==> is_decimal(#[trigger] digits[j]),
            acc == decimal(digits.take(i - first)),
            acc <= limit,
            digits == unsigned_part(text@),
            negative == (has_sign(text@) && text@[0] == '-'),
            limit == (if negative {
                0x8000_0000_0000_0000u64
            } else {
                0x7fff_ffff_ffff_ffffu64
            }),
        decreases n - i,
    {
        let b = bytes[i];
        let ghost c = digits[i - first];
        assert(c == text@[i as int] && c as u8 == b);
        if !(DIGIT_ZERO <= b && b <= DIGIT_NINE) {
            assert(!is_decimal(c));
            return None;
        }
        let d: u64 = (b - DIGIT_ZERO) as u64;
        proof {
            let next = digits.take(i - first + 1);
            assert(next.drop_last() =~= digits.take(i - first));
        }
        if acc > (limit - d) / 10 {
            proof {
                if all_decimal(digits) {
                    lemma_decimal_grows(digits, i - first + 1);
                }
            }
            return None;
        }
        acc = acc * 10 + d;
        i += 1;
    }
    assert(digits.take(n - first) =~= digits);
    if negative {
        if acc == 0x8000_0000_0000_0000 {
            Some(i64::MIN)
        } else {
            Some(-(acc as i64))
        }
    } else {
        Some(acc as i64)
    }
}

} // verus!
