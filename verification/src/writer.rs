use crate::blob::Blob;
use crate::byte_range::ByteRange;
use vstd::prelude::*;

verus! {

/// The append-only target of a conversion: the container file as it grows
/// in memory. `append` writes at the cursor and returns where the bytes
/// landed; `write_start` overwrites the opening bytes in place.
#[derive(Debug)]
pub struct TileWriter {
    data: Vec<u8>,
}

impl View for TileWriter {
    type V = Seq<u8>;

    closed spec fn view(&self) -> Seq<u8> {
        self.data@
    }
}

impl TileWriter {
    /// An empty target.
    pub fn new() -> (r: TileWriter)
        ensures
            r@ == Seq::<u8>::empty(),
    {
        TileWriter { data: Vec::new() }
    }

    /// The write cursor: how many bytes have been written.
    pub fn pos(&self) -> (r: u64)
        ensures
            r == self@.len(),
    {
        self.data.len() as u64
    }

    /// Appends the blob at the cursor and returns the range it occupies.
    pub fn append(&mut self, blob: &Blob) -> (r: ByteRange)
        ensures
            final(self)@ == old(self)@ + blob@,
            r.offset == old(self)@.len(),
            r.length == blob@.len(),
    {
        let offset = self.data.len() as u64;
        let length = blob.len() as u64;
        let src = blob.as_vec();
        let mut i: usize = 0;
        while i < src.len()
            invariant
                i <= src@.len(),
                src@ == blob@,
                self.data@ =~= old(self)@ + blob@.take(i as int),
            decreases src@.len() - i,
        {
            self.data.push(src[i]);
            i = i + 1;
            proof {
                assert(self.data@ =~= old(self)@ + blob@.take(i as int));
            }
        }
        proof {
            assert(self.data@ =~= old(self)@ + blob@);
        }
        ByteRange { offset, length }
    }

    /// Overwrites the bytes `[0, blob.len())` in place.
    pub fn write_start(&mut self, blob: &Blob)
        requires
            blob@.len() <= old(self)@.len(),
        ensures
            final(self)@ == blob@ + old(self)@.skip(blob@.len() as int),
    {
        let src = blob.as_vec();
        let mut i: usize = 0;
        while i < src.len()
            invariant
                i <= src@.len(),
                src@ == blob@,
                blob@.len() <= old(self)@.len(),
                self.data@.len() == old(self)@.len(),
                self.data@ =~= blob@.take(i as int) + old(self)@.skip(i as int),
            decreases src@.len() - i,
        {
            self.data.set(i, src[i]);
            i = i + 1;
            proof {
                assert(self.data@ =~= blob@.take(i as int) + old(self)@.skip(i as int));
            }
        }
        proof {
            assert(self.data@ =~= blob@ + old(self)@.skip(blob@.len() as int));
        }
    }

    /// Gives the written bytes up.
    pub fn into_blob(self) -> (r: Blob)
        ensures
            r@ == self@,
    {
        Blob::new(self.data)
    }
}

} // verus!
