use vstd::prelude::*;

verus! {

/// Why a document could not be decoded.
#[derive(PartialEq, Eq, Structural, Clone, Copy, Debug)]
pub enum NbtError {
    /// The first byte is not the compound tag.
    InvalidRoot,
    /// Fewer bytes remain than a decoding step requires.
    UnexpectedEndOfInput,
    /// A tag id outside the closed set, or an end tag where a list needs a value type.
    UnknownTag,
    /// A declared element count times the element width does not fit in `usize`.
    ArithmeticOverflow,
}

/// Which of the two compared documents failed to decode.
#[derive(PartialEq, Eq, Structural, Clone, Copy, Debug)]
pub enum Side {
    Left,
    Right,
}

/// A decoding failure, with the side on which it happened.
#[derive(PartialEq, Eq, Structural, Clone, Copy, Debug)]
pub struct CompareError {
    pub side: Side,
    pub kind: NbtError,
}

} // verus!
