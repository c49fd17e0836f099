//! A piece of a message body.

use vstd::prelude::*;

verus! {

/// A piece of a message body: owned bytes handed between the codec and the
/// user.
#[derive(Clone, Debug)]
pub struct Chunk(pub Vec<u8>);

impl View for Chunk {
    type V = Seq<u8>;

    open spec fn view(&self) -> Seq<u8> {
        self.0@
    }
}

impl Chunk {
    /// The bytes of this chunk, as a slice.
    pub fn as_bytes(&self) -> (r: &[u8])
        ensures
            r@ == self@,
    {
        self.0.as_slice()
    }

    /// How many bytes the chunk holds.
    pub fn len(&self) -> (r: usize)
        ensures
            r == self@.len(),
    {
        self.0.len()
    }

    /// Whether the chunk is empty.
    pub fn is_empty(&self) -> (r: bool)
        ensures
            r == (self@.len() == 0),
    {
        self.0.len() == 0
    }
}

impl From<Vec<u8>> for Chunk {
    /// Wraps owned bytes as a chunk.
    fn from(v: Vec<u8>) -> (r: Chunk) {
        Chunk(v)
    }
}

impl vstd::std_specs::convert::FromSpecImpl<Vec<u8>> for Chunk {
    open spec fn obeys_from_spec() -> bool {
        true
    }

    open spec fn from_spec(v: Vec<u8>) -> Chunk {
        Chunk(v)
    }
}

} // verus!
