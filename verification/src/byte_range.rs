use vstd::prelude::*;

verus! {

/// A slice of the container file: absolute offset and length in bytes.
/// `length == 0` denotes an absent payload.
#[derive(Clone, Copy, Debug, PartialEq, Eq, Structural)]
pub struct ByteRange {
    pub offset: u64,
    pub length: u64,
}

impl ByteRange {
    /// A range from its parts.
    pub fn new(offset: u64, length: u64) -> (r: ByteRange)
        ensures
            r == (ByteRange { offset, length }),
    {
        ByteRange { offset, length }
    }

    /// The absent range.
    pub fn empty() -> (r: ByteRange)
        ensures
            r == (ByteRange { offset: 0, length: 0 }),
    {
        ByteRange { offset: 0, length: 0 }
    }
}

} // verus!
