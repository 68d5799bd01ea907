use vstd::prelude::*;

verus! {

/// An owned byte buffer, never mutated after construction.
///
/// Its view is the sequence of bytes it holds.
#[derive(Debug)]
pub struct Blob {
    data: Vec<u8>,
}

impl View for Blob {
    type V = Seq<u8>;

    closed spec fn view(&self) -> Seq<u8> {
        self.data@
    }
}

impl Blob {
    /// Wraps a byte vector.
    pub fn new(data: Vec<u8>) -> (r: Blob)
        ensures
            r@ == data@,
    {
        Blob { data }
    }

    /// The empty blob.
    pub fn empty() -> (r: Blob)
        ensures
            r@ == Seq::<u8>::empty(),
    {
        Blob { data: Vec::new() }
    }

    /// Number of bytes held.
    pub fn len(&self) -> (r: usize)
        ensures
            r == self@.len(),
    {
        self.data.len()
    }

    /// True iff no bytes are held.
    pub fn is_empty(&self) -> (r: bool)
        ensures
            r == (self@.len() == 0),
    {
        self.data.len() == 0
    }

    /// Borrows the bytes.
    pub fn as_vec(&self) -> (r: &Vec<u8>)
        ensures
            r@ == self@,
    {
        &self.data
    }

    /// Borrows the bytes as a slice.
    pub fn as_slice(&self) -> (r: &[u8])
        ensures
            r@ == self@,
    {
        self.data.as_slice()
    }

    /// Gives the bytes up.
    pub fn into_vec(self) -> (r: Vec<u8>)
        ensures
            r@ == self@,
    {
        self.data
    }

    /// The byte at position `i`.
    pub fn get(&self, i: usize) -> (r: u8)
        requires
            i < self@.len(),
        ensures
            r == self@[i as int],
    {
        self.data[i]
    }
}

impl Clone for Blob {
    fn clone(&self) -> (r: Self)
        ensures
            r@ == self@,
    {
        let data = crate::byteops::clone_bytes(&self.data);
        Blob { data }
    }
}

} // verus!
