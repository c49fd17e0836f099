//! The storage cell of one header field: its raw value lines.

use vstd::prelude::*;

verus! {

/// One header field's stored value: the raw lines as they arrived or were
/// set.
#[derive(Clone, Debug)]
pub struct Item {
    raw: Vec<Vec<u8>>,
}

impl View for Item {
    type V = Seq<Seq<u8>>;

    closed spec fn view(&self) -> Seq<Seq<u8>> {
        self.raw.deep_view()
    }
}

impl Item {
    /// Wraps raw value lines.
    pub fn new_raw(data: Vec<Vec<u8>>) -> (r: Item)
        ensures
            r@ == data.deep_view(),
    {
        Item { raw: data }
    }

    /// The raw value lines, mutably; what the caller writes becomes the
    /// stored value.
    pub fn mut_raw(&mut self) -> (r: &mut Vec<Vec<u8>>) {
        &mut self.raw
    }

    /// The raw value lines.
    pub fn raw(&self) -> (r: &Vec<Vec<u8>>)
        ensures
            r.deep_view() == self@,
    {
        &self.raw
    }
}

} // verus!
