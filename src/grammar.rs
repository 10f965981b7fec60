use vstd::prelude::*;

use crate::error::NbtError;
use crate::value::Nbt;

verus! {

pub const TAG_END: u8 = 0;
pub const TAG_BYTE_ARRAY: u8 = 7;
pub const TAG_STRING: u8 = 8;
pub const TAG_LIST: u8 = 9;
pub const TAG_COMPOUND: u8 = 10;
pub const TAG_INT_ARRAY: u8 = 11;
pub const TAG_LONG_ARRAY: u8 = 12;

/// The big-endian 16-bit number at `p`.
pub open spec fn be16(s: Seq<u8>, p: int) -> int {
    s[p] as int * 256 + s[p + 1] as int
}

/// The big-endian 32-bit number at `p`.
pub open spec fn be32(s: Seq<u8>, p: int) -> int {
    ((s[p] as int * 256 + s[p + 1] as int) * 256 + s[p + 2] as int) * 256 + s[p + 3] as int
}

/// Byte, Short, Int, Long, Float and Double: the tags with a fixed payload width.
pub open spec fn is_numeric(tag: u8) -> bool {
    1 <= tag <= 6
}

/// The payload width of a numeric tag.
pub open spec fn numeric_width(tag: u8) -> int {
    if tag == 1 {
        1
    } else if tag == 2 {
        2
    } else if tag == 3 || tag == 5 {
        4
    } else if tag == 4 || tag == 6 {
        8
    } else {
        0
    }
}

/// Byte, Int and Long arrays.
pub open spec fn is_array(tag: u8) -> bool {
    tag == TAG_BYTE_ARRAY || tag == TAG_INT_ARRAY || tag == TAG_LONG_ARRAY
}

/// The element width of an array tag.
pub open spec fn array_width(tag: u8) -> int {
    if tag == TAG_BYTE_ARRAY {
        1
    } else if tag == TAG_INT_ARRAY {
        4
    } else if tag == TAG_LONG_ARRAY {
        8
    } else {
        0
    }
}

/// A tag that names a value type, so one that a member or a list element may have.
pub open spec fn is_value_tag(tag: u8) -> bool {
    1 <= tag <= 12
}

/// What one decoding step yields: a value and the position after it.
pub type Step = Result<(Nbt, int), NbtError>;

/// The `n` bytes at `p`, taken as one opaque span.
pub open spec fn span_at(s: Seq<u8>, p: int, n: int) -> Step {
    if p + n <= s.len() {
        Ok((Nbt::Span(s.subrange(p, p + n)), p + n))
    } else {
        Err(NbtError::UnexpectedEndOfInput)
    }
}

/// A 4-byte count at `p`, then that many elements of `width` bytes as one span.
pub open spec fn counted_span(s: Seq<u8>, p: int, width: int) -> Step {
    if p + 4 > s.len() {
        Err(NbtError::UnexpectedEndOfInput)
    } else if be32(s, p) * width > usize::MAX {
        Err(NbtError::ArithmeticOverflow)
    } else {
        span_at(s, p + 4, be32(s, p) * width)
    }
}

/// The payload of a value of type `tag` that starts at `p`.
pub open spec fn payload(s: Seq<u8>, p: int, tag: u8) -> Step
    decreases s.len() - p, 2nat, 0nat,
    when 0 <= p <= s.len()
{
    if is_numeric(tag) {
        span_at(s, p, numeric_width(tag))
    } else if is_array(tag) {
        counted_span(s, p, array_width(tag))
    } else if tag == TAG_STRING {
        if p + 2 > s.len() {
            Err(NbtError::UnexpectedEndOfInput)
        } else {
            span_at(s, p + 2, be16(s, p))
        }
    } else if tag == TAG_LIST {
        list(s, p)
    } else if tag == TAG_COMPOUND {
        members(s, p, Map::empty())
    } else {
        Err(NbtError::UnknownTag)
    }
}

/// A list at `p`: its element tag, its 4-byte count, then its elements.
/// Numeric elements form one span; an end-tag list must be empty and is the empty sequence.
pub open spec fn list(s: Seq<u8>, p: int) -> Step
    decreases s.len() - p, 1nat, 0nat,
    when 0 <= p <= s.len()
{
    if p + 5 > s.len() {
        Err(NbtError::UnexpectedEndOfInput)
    } else {
        let tag = s[p];
        let n = be32(s, p + 1);
        if is_numeric(tag) {
            if n * numeric_width(tag) > usize::MAX {
                Err(NbtError::ArithmeticOverflow)
            } else {
                span_at(s, p + 5, n * numeric_width(tag))
            }
        } else if tag == TAG_END {
            if n == 0 {
                Ok((Nbt::Sequence(Seq::empty()), p + 5))
            } else {
                Err(NbtError::UnknownTag)
            }
        } else if !is_value_tag(tag) {
            Err(NbtError::UnknownTag)
        } else {
            elements(s, p + 5, tag, n as nat, Seq::empty())
        }
    }
}

/// `n` more list elements of type `tag` from `p`, after the elements `done`.
pub open spec fn elements(s: Seq<u8>, p: int, tag: u8, n: nat, done: Seq<Nbt>) -> Step
    decreases s.len() - p, 3nat, n,
    when 0 <= p <= s.len()
{
    if n == 0 {
        Ok((Nbt::Sequence(done), p))
    } else {
        match payload(s, p, tag) {
            Ok((v, q)) => if p < q <= s.len() {
                elements(s, q, tag, (n - 1) as nat, done.push(v))
            } else {
                // every payload takes at least one byte
                Err(NbtError::UnexpectedEndOfInput)
            },
            Err(e) => Err(e),
        }
    }
}

/// The members of a compound from `p` up to and including its end tag, added to `found`;
/// a later member of the same name replaces an earlier one.
pub open spec fn members(s: Seq<u8>, p: int, found: Map<Seq<u8>, Nbt>) -> Step
    decreases s.len() - p, 1nat, 0nat,
    when 0 <= p <= s.len()
{
    if p + 1 > s.len() {
        Err(NbtError::UnexpectedEndOfInput)
    } else if s[p] == TAG_END {
        Ok((Nbt::Compound(found), p + 1))
    } else if !is_value_tag(s[p]) {
        Err(NbtError::UnknownTag)
    } else if p + 3 > s.len() {
        Err(NbtError::UnexpectedEndOfInput)
    } else {
        let start = p + 3 + be16(s, p + 1);
        if start > s.len() {
            Err(NbtError::UnexpectedEndOfInput)
        } else {
            match payload(s, start, s[p]) {
                Ok((v, q)) => if p < q <= s.len() {
                    members(s, q, found.insert(s.subrange(p + 3, start), v))
                } else {
                    // every payload takes at least one byte
                    Err(NbtError::UnexpectedEndOfInput)
                },
                Err(e) => Err(e),
            }
        }
    }
}

/// A whole document: the compound tag, a root name that is skipped, then the root's members.
/// The position is where the root's end tag stops; bytes after it are not read.
pub open spec fn root(s: Seq<u8>) -> Step {
    if s.len() < 1 {
        Err(NbtError::UnexpectedEndOfInput)
    } else if s[0] != TAG_COMPOUND {
        Err(NbtError::InvalidRoot)
    } else if s.len() < 3 {
        Err(NbtError::UnexpectedEndOfInput)
    } else if 3 + be16(s, 1) > s.len() {
        Err(NbtError::UnexpectedEndOfInput)
    } else {
        members(s, 3 + be16(s, 1), Map::empty())
    }
}

/// The root compound that a document decodes to.
pub open spec fn document(s: Seq<u8>) -> Result<Nbt, NbtError> {
    match root(s) {
        Ok((v, _)) => Ok(v),
        Err(e) => Err(e),
    }
}

} // verus!
