//! The read buffer the codec consumes: a byte string with a cursor. Bytes
//! arrive from outside (a socket, a file, a test vector) and are appended;
//! the decoders read from the front.

use vstd::prelude::*;

verus! {

/// A byte source with a cursor. Its view is the bytes not yet consumed.
#[derive(Clone, Debug)]
pub struct BufReader {
    data: Vec<u8>,
    pos: usize,
}

impl BufReader {
    /// The cursor never passes the end of the data; every constructor
    /// establishes this and every method keeps it.
    pub closed spec fn wf(&self) -> bool {
        self.pos <= self.data@.len()
    }
}

impl View for BufReader {
    type V = Seq<u8>;

    closed spec fn view(&self) -> Seq<u8> {
        if self.pos <= self.data@.len() {
            self.data@.subrange(self.pos as int, self.data@.len() as int)
        } else {
            Seq::empty()
        }
    }
}

impl BufReader {
    /// A reader over the given bytes.
    pub fn with_input(data: Vec<u8>) -> (r: BufReader)
        ensures
            r@ == data@,
            r.wf(),
    {
        let ghost d = data@;
        let r = BufReader { data, pos: 0 };
        proof {
            assert(r@ =~= d);
        }
        r
    }

    /// An empty reader.
    pub fn new() -> (r: BufReader)
        ensures
            r@ =~= Seq::<u8>::empty(),
            r.wf(),
    {
        BufReader { data: Vec::new(), pos: 0 }
    }

    /// Appends bytes that arrived from outside.
    pub fn feed(&mut self, more: &[u8])
        requires
            old(self).wf(),
        ensures
            final(self)@ == old(self)@ + more@,
            final(self).wf(),
    {
        let ghost before = self@;
        let mut j: usize = 0;
        while j < more.len()
            invariant
                0 <= j <= more@.len(),
                self.pos == old(self).pos,
                self.pos <= old(self).data@.len(),
                self.data@ == old(self).data@ + more@.take(j as int),
            decreases more@.len() - j,
        {
            self.data.push(more[j]);
            j = j + 1;
            proof {
                assert(self.data@ =~= old(self).data@ + more@.take(j as int));
            }
        }
        proof {
            assert(more@.take(more@.len() as int) =~= more@);
            assert(self@ =~= before + more@);
        }
    }

    /// How many bytes remain unread.
    pub fn remaining(&self) -> (r: usize)
        requires
            self.wf(),
        ensures
            r == self@.len(),
    {
        self.data.len() - self.pos
    }

    /// The unread bytes, as a slice.
    pub fn rest(&self) -> (r: &[u8])
        requires
            self.wf(),
        ensures
            r@ == self@,
    {
        vstd::slice::slice_subrange(self.data.as_slice(), self.pos, self.data.len())
    }

    /// Reads one byte, if any remain.
    pub fn read_byte(&mut self) -> (r: Option<u8>)
        requires
            old(self).wf(),
        ensures
            final(self).wf(),
            match r {
                Some(b) => old(self)@.len() > 0 && b == old(self)@[0] && final(self)@ == old(
                    self,
                )@.drop_first(),
                None => old(self)@.len() == 0 && final(self)@ == old(self)@,
            },
    {
        if self.pos < self.data.len() {
            let b = self.data[self.pos];
            self.pos = self.pos + 1;
            proof {
                assert(self@ =~= old(self)@.drop_first());
            }
            Some(b)
        } else {
            proof {
                assert(self@ =~= old(self)@);
            }
            None
        }
    }

    /// Consumes `n` bytes from the front.
    pub fn consume(&mut self, n: usize)
        requires
            old(self).wf(),
            n <= old(self)@.len(),
        ensures
            final(self)@ == old(self)@.skip(n as int),
            final(self).wf(),
    {
        let bound = self.data.len();
        proof {
            assert(old(self)@.len() == old(self).data@.len() - old(self).pos);
            assert(old(self).pos + n <= bound);
        }
        self.pos = self.pos + n;
        proof {
            assert(self@ =~= old(self)@.skip(n as int));
        }
    }

    /// Reads up to `limit` bytes from the front.
    pub fn read_upto(&mut self, limit: usize) -> (r: Vec<u8>)
        requires
            old(self).wf(),
        ensures
            final(self).wf(),
            r@.len() == vstd::math::min(limit as int, old(self)@.len() as int),
            r@ == old(self)@.take(r@.len() as int),
            final(self)@ == old(self)@.skip(r@.len() as int),
    {
        let avail = self.remaining();
        let n = if limit < avail {
            limit
        } else {
            avail
        };
        let out = vstd::slice::slice_to_vec(vstd::slice::slice_subrange(self.rest(), 0, n));
        self.consume(n);
        proof {
            assert(out@ =~= old(self)@.take(n as int));
        }
        out
    }
}

} // verus!
