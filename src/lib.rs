//! Storage of decoded assets behind shareable, reference-counted handles.
use vstd::prelude::*;

pub mod bitset;
pub mod handle;
pub mod process;
pub mod storage;

verus! {

} // verus!
