// Decodes two uncompressed NBT documents into trees that borrow their payload bytes from the
// input, and tells whether the two are structurally equal, optionally ignoring one top-level
// member.
use vstd::prelude::*;

pub mod compare;
pub mod cursor;
pub mod decode;
pub mod equality;
pub mod error;
pub mod grammar;
pub mod laws;
pub mod members;
pub mod value;

verus! {

} // verus!
