//! A 32-byte value (a document name, a hash) held as four words, so that
//! verified code can compare two of them.
use vstd::prelude::*;

verus! {

/// 32 bytes, as four big-endian 64-bit words.
#[derive(Clone, Copy, Debug, PartialEq, Eq, Structural)]
pub struct Hash32 {
    pub w0: u64,
    pub w1: u64,
    pub w2: u64,
    pub w3: u64,
}

impl Hash32 {
    /// Whether two values are the same 32 bytes.
    pub fn same(&self, other: &Hash32) -> (r: bool)
        ensures
            r == (*self == *other),
    {
        self.w0 == other.w0 && self.w1 == other.w1 && self.w2 == other.w2 && self.w3 == other.w3
    }
}

} // verus!
